//! The three lines at the head of a circuit.
//!
//! The first line gives the number of gates and the number of wires. The
//! second gives the number of input ports, then the width of each port;
//! the third does the same for the output ports. The header is read by
//! position: it is the first three lines that are not blank.

use crate::error::{fails, viewed, ErrorKind, LineError, ParseError};
use crate::number::{number_at, read_number};
use crate::search::{first_index, lemma_first_index, lemma_first_index_skip};
use crate::text::texts;
use crate::tokens::{split_tokens, tokens};
use vstd::prelude::*;

verus! {

/// The dimensions of a circuit.
#[derive(Debug, PartialEq, Eq)]
pub struct Header {
    /// The number of gates that the circuit declares.
    pub num_gates: u32,
    /// The number of wires in the circuit.
    pub num_wires: u32,
    /// The number of wires of each input port, in the order of the ports.
    pub num_input_wires: Vec<u32>,
    /// The number of wires of each output port, in the order of the ports.
    pub num_output_wires: Vec<u32>,
}

/// A header as a mathematical value.
pub struct HeaderView {
    pub num_gates: u32,
    pub num_wires: u32,
    pub num_input_wires: Seq<u32>,
    pub num_output_wires: Seq<u32>,
}

impl View for Header {
    type V = HeaderView;

    open spec fn view(&self) -> HeaderView {
        HeaderView {
            num_gates: self.num_gates,
            num_wires: self.num_wires,
            num_input_wires: self.num_input_wires@,
            num_output_wires: self.num_output_wires@,
        }
    }
}

/// The number of gates and the number of wires that the first header line
/// declares. Fields after the second are not looked at.
pub open spec fn general_of(line: Seq<char>) -> Result<(u32, u32), LineError> {
    let fields = tokens(line);
    if number_at(fields, 0) is None {
        fails(ErrorKind::MalformedNumber, 0)
    } else if number_at(fields, 1) is None {
        fails(ErrorKind::MalformedNumber, 1)
    } else {
        Ok((number_at(fields, 0)->0, number_at(fields, 1)->0))
    }
}

/// The number of ports that a port line declares.
pub open spec fn declared_ports(line: Seq<char>) -> Option<u32> {
    number_at(tokens(line), 0)
}

/// The widths of the ports that a port line declares: its first field is
/// the number of ports, and exactly that many widths follow. The number
/// of widths is looked at before the widths are.
pub open spec fn port_widths_of(line: Seq<char>) -> Result<Seq<u32>, LineError> {
    let fields = tokens(line);
    match declared_ports(line) {
        None => fails(ErrorKind::MalformedNumber, 0),
        Some(declared) => if fields.len() - 1 != declared {
            fails(
                ErrorKind::StructuralError {
                    expected: declared,
                    found: (fields.len() - 1) as usize,
                },
                0,
            )
        } else {
            match first_index(1, fields.len() as int, |i: int| number_at(fields, i) is None) {
                Some(i) => fails(ErrorKind::MalformedNumber, i),
                None => Ok(
                    Seq::new((fields.len() - 1) as nat, |i: int| number_at(fields, i + 1)->0),
                ),
            }
        },
    }
}

/// The header that the first three of `lines` describe.
pub open spec fn header_of(lines: Seq<Seq<char>>) -> Result<HeaderView, ParseError> {
    if lines.len() < 3 {
        Err(
            ParseError {
                kind: ErrorKind::StructuralError { expected: 3, found: lines.len() as usize },
                line: lines.len() as usize,
                field: 0,
            },
        )
    } else {
        match general_of(lines[0]) {
            Err(e) => Err(e.on_line(0)),
            Ok((num_gates, num_wires)) => match port_widths_of(lines[1]) {
                Err(e) => Err(e.on_line(1)),
                Ok(num_input_wires) => match port_widths_of(lines[2]) {
                    Err(e) => Err(e.on_line(2)),
                    Ok(num_output_wires) => Ok(
                        HeaderView { num_gates, num_wires, num_input_wires, num_output_wires },
                    ),
                },
            },
        }
    }
}

/// A port line that is read declares as many ports as widths are read
/// from it, and each width is the number in the field of its port.
pub proof fn lemma_port_widths(line: Seq<char>)
    requires
        port_widths_of(line) is Ok,
    ensures
        ({
            let widths = port_widths_of(line)->Ok_0;
            &&& declared_ports(line) == Some(widths.len() as u32)
            &&& tokens(line).len() == widths.len() + 1
            &&& forall|i: int|
                0 <= i < widths.len() ==> number_at(tokens(line), i + 1) == Some(
                    #[trigger] widths[i],
                )
        }),
{
    let fields = tokens(line);
    let widths = port_widths_of(line)->Ok_0;
    let bad = |i: int| number_at(fields, i) is None;
    lemma_first_index(1, fields.len() as int, bad);
    assert forall|i: int| 0 <= i < widths.len() implies number_at(fields, i + 1) == Some(
        #[trigger] widths[i],
    ) by {
        assert(!bad(i + 1));
    }
}

/// In a header that is read, the list of input widths is as long as the
/// second line declares, and the list of output widths is as long as the
/// third line declares.
pub proof fn lemma_header_port_counts(lines: Seq<Seq<char>>)
    requires
        header_of(lines) is Ok,
    ensures
        lines.len() >= 3,
        declared_ports(lines[1]) == Some(header_of(lines)->Ok_0.num_input_wires.len() as u32),
        declared_ports(lines[2]) == Some(header_of(lines)->Ok_0.num_output_wires.len() as u32),
{
    lemma_port_widths(lines[1]);
    lemma_port_widths(lines[2]);
}

/// Reads the first line of a header: the number of gates and the number
/// of wires.
///
/// Fails with `MalformedNumber` at the first of the two fields that is
/// not a number. Further fields are not looked at.
pub fn parse_header_general(header_line: &str) -> (r: Result<(u32, u32), LineError>)
    ensures
        r == general_of(header_line@),
{
    let fields = split_tokens(header_line);
    let num_gates = match read_number(fields.as_slice(), 0) {
        Some(n) => n,
        None => return Err(LineError { kind: ErrorKind::MalformedNumber, field: 0 }),
    };
    let num_wires = match read_number(fields.as_slice(), 1) {
        Some(n) => n,
        None => return Err(LineError { kind: ErrorKind::MalformedNumber, field: 1 }),
    };
    Ok((num_gates, num_wires))
}

/// Reads the second or third line of a header: the number of wires of
/// each port.
///
/// Fails with `MalformedNumber` where the first field is not a number,
/// with `StructuralError` where it is not the number of fields that
/// follow, and with `MalformedNumber` at the first of those that is not a
/// number.
pub fn parse_header_io_wires(header_line: &str) -> (r: Result<Vec<u32>, LineError>)
    ensures
        viewed(r) == port_widths_of(header_line@),
{
    let fields = split_tokens(header_line);
    let num_ports = match read_number(fields.as_slice(), 0) {
        Some(n) => n,
        None => return Err(LineError { kind: ErrorKind::MalformedNumber, field: 0 }),
    };
    let found: usize = fields.len() - 1;
    if found as u64 != num_ports as u64 {
        return Err(
            LineError {
                kind: ErrorKind::StructuralError { expected: num_ports, found },
                field: 0,
            },
        );
    }
    let ghost all = texts(fields@);
    let ghost bad = |i: int| number_at(all, i) is None;
    let mut num_wires: Vec<u32> = Vec::new();
    let mut i: usize = 1;
    while i < fields.len()
        invariant
            1 <= i <= fields.len(),
            all == texts(fields@),
            all == tokens(header_line@),
            bad == |i: int| number_at(all, i) is None,
            declared_ports(header_line@) == Some(num_ports),
            all.len() - 1 == num_ports,
            num_wires@.len() == i - 1,
            forall|j: int| 1 <= j < i ==> !#[trigger] bad(j),
            forall|j: int| 0 <= j < i - 1 ==> num_wires@[j] == number_at(all, j + 1)->0,
        decreases fields.len() - i,
    {
        match read_number(fields.as_slice(), i) {
            Some(n) => num_wires.push(n),
            None => {
                proof {
                    lemma_first_index_skip(1, i as int, fields.len() as int, bad);
                }
                return Err(LineError { kind: ErrorKind::MalformedNumber, field: i });
            },
        }
        i += 1;
    }
    proof {
        lemma_first_index_skip(1, i as int, fields.len() as int, bad);
        assert(num_wires@ =~= Seq::new(
            (all.len() - 1) as nat,
            |i: int| number_at(all, i + 1)->0,
        ));
    }
    Ok(num_wires)
}

/// Reads a header from the first three of the lines given.
///
/// Fails with `StructuralError` where fewer than three lines are given,
/// and as the reader of the first line that is wrong does otherwise.
pub fn parse_header(header_lines: &[&str]) -> (r: Result<Header, ParseError>)
    ensures
        viewed(r) == header_of(texts(header_lines@)),
{
    if header_lines.len() < 3 {
        return Err(
            ParseError {
                kind: ErrorKind::StructuralError { expected: 3, found: header_lines.len() },
                line: header_lines.len(),
                field: 0,
            },
        );
    }
    let (num_gates, num_wires) = match parse_header_general(header_lines[0]) {
        Ok(pair) => pair,
        Err(e) => return Err(e.at_line(0)),
    };
    let num_input_wires = match parse_header_io_wires(header_lines[1]) {
        Ok(widths) => widths,
        Err(e) => return Err(e.at_line(1)),
    };
    let num_output_wires = match parse_header_io_wires(header_lines[2]) {
        Ok(widths) => widths,
        Err(e) => return Err(e.at_line(2)),
    };
    Ok(Header { num_gates, num_wires, num_input_wires, num_output_wires })
}

} // verus!
