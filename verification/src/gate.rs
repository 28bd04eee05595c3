//! Gates, and the lines that describe them.
//!
//! A gate line holds, in this order: the number of input wires, the number
//! of output wires, the input wires, the output wire, and a tag that names
//! the operation, as in `2 1 0 1 4 AND`. The tag is the last field of the
//! line. It decides what the line is read as, and is compared letter for
//! letter. The other fields are read by their position, from the left;
//! fields between the output wire and the tag are not looked at. The two
//! counts must read exactly `2` or `1`, as the tag requires.

use crate::error::{fails, ErrorKind, LineError};
use crate::number::{
    is_digit, lemma_number_of_digit, lemma_number_starts_with_digit, number_at, number_of,
    read_number,
};
use crate::text::{str_eq, texts};
use crate::tokens::{field_is, field_reads, split_tokens, tokens};
use vstd::prelude::*;

verus! {

/// A logic gate. Each field names the wire connected to that port.
#[derive(Clone, Copy, Debug, PartialEq, Eq, Structural)]
pub enum Gate {
    XOR { input_a: u32, input_b: u32, output: u32 },
    AND { input_a: u32, input_b: u32, output: u32 },
    INV { input: u32, output: u32 },
}

/// The wires `(input_a, input_b, output)` of a gate with two inputs.
pub open spec fn binary_wires_of(fields: Seq<Seq<char>>) -> Result<(u32, u32, u32), LineError> {
    if !field_is(fields, 0, "2"@) {
        fails(ErrorKind::ArityMismatch { expected: 2 }, 0)
    } else if !field_is(fields, 1, "1"@) {
        fails(ErrorKind::ArityMismatch { expected: 1 }, 1)
    } else if number_at(fields, 2) is None {
        fails(ErrorKind::MalformedNumber, 2)
    } else if number_at(fields, 3) is None {
        fails(ErrorKind::MalformedNumber, 3)
    } else if number_at(fields, 4) is None {
        fails(ErrorKind::MalformedNumber, 4)
    } else {
        Ok((number_at(fields, 2)->0, number_at(fields, 3)->0, number_at(fields, 4)->0))
    }
}

/// The wires `(input, output)` of a gate with one input.
pub open spec fn unary_wires_of(fields: Seq<Seq<char>>) -> Result<(u32, u32), LineError> {
    if !field_is(fields, 0, "1"@) {
        fails(ErrorKind::ArityMismatch { expected: 1 }, 0)
    } else if !field_is(fields, 1, "1"@) {
        fails(ErrorKind::ArityMismatch { expected: 1 }, 1)
    } else if number_at(fields, 2) is None {
        fails(ErrorKind::MalformedNumber, 2)
    } else if number_at(fields, 3) is None {
        fails(ErrorKind::MalformedNumber, 3)
    } else {
        Ok((number_at(fields, 2)->0, number_at(fields, 3)->0))
    }
}

/// The XOR gate that the fields of a line describe.
pub open spec fn xor_of(fields: Seq<Seq<char>>) -> Result<Gate, LineError> {
    match binary_wires_of(fields) {
        Ok((input_a, input_b, output)) => Ok(Gate::XOR { input_a, input_b, output }),
        Err(e) => Err(e),
    }
}

/// The AND gate that the fields of a line describe.
pub open spec fn and_of(fields: Seq<Seq<char>>) -> Result<Gate, LineError> {
    match binary_wires_of(fields) {
        Ok((input_a, input_b, output)) => Ok(Gate::AND { input_a, input_b, output }),
        Err(e) => Err(e),
    }
}

/// The inverter that the fields of a line describe.
pub open spec fn inv_of(fields: Seq<Seq<char>>) -> Result<Gate, LineError> {
    match unary_wires_of(fields) {
        Ok((input, output)) => Ok(Gate::INV { input, output }),
        Err(e) => Err(e),
    }
}

/// Whether `tag` names a gate of the format that this parser does not build.
pub open spec fn is_unsupported_tag(tag: Seq<char>) -> bool {
    tag == "EQ"@ || tag == "EQW"@ || tag == "MAND"@
}

/// What the fields of a gate line describe; the last field chooses the
/// operation.
pub open spec fn gate_of_fields(fields: Seq<Seq<char>>) -> Result<Gate, LineError> {
    if fields.len() == 0 {
        fails(ErrorKind::UnknownGateType, 0)
    } else {
        let tag = fields.last();
        if tag == "XOR"@ {
            xor_of(fields)
        } else if tag == "AND"@ {
            and_of(fields)
        } else if tag == "INV"@ || tag == "NOT"@ {
            inv_of(fields)
        } else if is_unsupported_tag(tag) {
            fails(ErrorKind::UnsupportedGateType, fields.len() - 1)
        } else {
            fails(ErrorKind::UnknownGateType, fields.len() - 1)
        }
    }
}

/// What a gate line describes.
pub open spec fn gate_of(line: Seq<char>) -> Result<Gate, LineError> {
    gate_of_fields(tokens(line))
}

/// Whether `tag` names the operation of `gate`.
pub open spec fn tag_names(tag: Seq<char>, gate: Gate) -> bool {
    match gate {
        Gate::XOR { .. } => tag == "XOR"@,
        Gate::AND { .. } => tag == "AND"@,
        Gate::INV { .. } => tag == "INV"@ || tag == "NOT"@,
    }
}

/// The wires of `gate` in the order in which its line holds them: the
/// inputs, then the output.
pub open spec fn wires_of(gate: Gate) -> Seq<u32> {
    match gate {
        Gate::XOR { input_a, input_b, output } => seq![input_a, input_b, output],
        Gate::AND { input_a, input_b, output } => seq![input_a, input_b, output],
        Gate::INV { input, output } => seq![input, output],
    }
}

/// A line that describes a gate ends in the tag of that gate, declares
/// its number of inputs and one output, and holds its wires as numbers in
/// the fields that follow the two counts.
pub proof fn lemma_gate_line(line: Seq<char>)
    requires
        gate_of(line) is Ok,
    ensures
        ({
            let fields = tokens(line);
            let gate = gate_of(line)->Ok_0;
            let wires = wires_of(gate);
            &&& fields.len() >= wires.len() + 3
            &&& tag_names(fields.last(), gate)
            &&& number_of(fields[0]) == Some((wires.len() - 1) as u32)
            &&& number_of(fields[1]) == Some(1u32)
            &&& forall|i: int|
                0 <= i < wires.len() ==> number_of(#[trigger] fields[i + 2]) == Some(wires[i])
        }),
{
    let fields = tokens(line);
    let tag = fields.last();
    reveal_strlit("XOR");
    reveal_strlit("AND");
    reveal_strlit("INV");
    reveal_strlit("NOT");
    reveal_strlit("1");
    reveal_strlit("2");
    // The tag is no number, so it stands after every field that holds one.
    assert(!is_digit(tag[0]));
    lemma_number_starts_with_digit(tag);
    lemma_number_of_digit("1"@);
    lemma_number_of_digit("2"@);
}

/// Reads the wires of a gate with two inputs.
fn parse_binary_wires(fields: &[&str]) -> (r: Result<(u32, u32, u32), LineError>)
    ensures
        r == binary_wires_of(texts(fields@)),
{
    if !field_reads(fields, 0, "2") {
        return Err(LineError { kind: ErrorKind::ArityMismatch { expected: 2 }, field: 0 });
    }
    if !field_reads(fields, 1, "1") {
        return Err(LineError { kind: ErrorKind::ArityMismatch { expected: 1 }, field: 1 });
    }
    let input_a = match read_number(fields, 2) {
        Some(wire) => wire,
        None => return Err(LineError { kind: ErrorKind::MalformedNumber, field: 2 }),
    };
    let input_b = match read_number(fields, 3) {
        Some(wire) => wire,
        None => return Err(LineError { kind: ErrorKind::MalformedNumber, field: 3 }),
    };
    let output = match read_number(fields, 4) {
        Some(wire) => wire,
        None => return Err(LineError { kind: ErrorKind::MalformedNumber, field: 4 }),
    };
    Ok((input_a, input_b, output))
}

/// Reads an XOR gate from the fields of its line.
///
/// Fails with `ArityMismatch` unless the first two fields read `2` and
/// `1`, and with `MalformedNumber` at the first of the next three fields
/// that is not a number.
pub fn parse_gate_xor(gate_line: &[&str]) -> (r: Result<Gate, LineError>)
    ensures
        r == xor_of(texts(gate_line@)),
{
    match parse_binary_wires(gate_line) {
        Ok((input_a, input_b, output)) => Ok(Gate::XOR { input_a, input_b, output }),
        Err(e) => Err(e),
    }
}

/// Reads an AND gate from the fields of its line.
///
/// Fails with `ArityMismatch` unless the first two fields read `2` and
/// `1`, and with `MalformedNumber` at the first of the next three fields
/// that is not a number.
pub fn parse_gate_and(gate_line: &[&str]) -> (r: Result<Gate, LineError>)
    ensures
        r == and_of(texts(gate_line@)),
{
    match parse_binary_wires(gate_line) {
        Ok((input_a, input_b, output)) => Ok(Gate::AND { input_a, input_b, output }),
        Err(e) => Err(e),
    }
}

/// Reads an inverter from the fields of its line.
///
/// Fails with `ArityMismatch` unless the first two fields read `1` and
/// `1`, and with `MalformedNumber` at the first of the next two fields
/// that is not a number.
pub fn parse_gate_inv(gate_line: &[&str]) -> (r: Result<Gate, LineError>)
    ensures
        r == inv_of(texts(gate_line@)),
{
    if !field_reads(gate_line, 0, "1") {
        return Err(LineError { kind: ErrorKind::ArityMismatch { expected: 1 }, field: 0 });
    }
    if !field_reads(gate_line, 1, "1") {
        return Err(LineError { kind: ErrorKind::ArityMismatch { expected: 1 }, field: 1 });
    }
    let input = match read_number(gate_line, 2) {
        Some(wire) => wire,
        None => return Err(LineError { kind: ErrorKind::MalformedNumber, field: 2 }),
    };
    let output = match read_number(gate_line, 3) {
        Some(wire) => wire,
        None => return Err(LineError { kind: ErrorKind::MalformedNumber, field: 3 }),
    };
    Ok(Gate::INV { input, output })
}

/// Reads one gate line.
///
/// The last field of the line is its tag. `XOR` and `AND` give a gate
/// with two inputs, `INV` and `NOT` an inverter; the line then fails as
/// the reader of that gate does. `EQ`, `EQW` and `MAND` fail with
/// `UnsupportedGateType`; any other tag, and a line without fields, with
/// `UnknownGateType`.
pub fn parse_gate(gate_line: &str) -> (r: Result<Gate, LineError>)
    ensures
        r == gate_of(gate_line@),
{
    let fields = split_tokens(gate_line);
    let n: usize = fields.len();
    if n == 0 {
        return Err(LineError { kind: ErrorKind::UnknownGateType, field: 0 });
    }
    let tag = fields[n - 1];
    if str_eq(tag, "XOR") {
        parse_gate_xor(fields.as_slice())
    } else if str_eq(tag, "AND") {
        parse_gate_and(fields.as_slice())
    } else if str_eq(tag, "INV") || str_eq(tag, "NOT") {
        parse_gate_inv(fields.as_slice())
    } else if str_eq(tag, "EQ") || str_eq(tag, "EQW") || str_eq(tag, "MAND") {
        Err(LineError { kind: ErrorKind::UnsupportedGateType, field: n - 1 })
    } else {
        Err(LineError { kind: ErrorKind::UnknownGateType, field: n - 1 })
    }
}

} // verus!
