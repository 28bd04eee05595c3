use bristol_circuit::error::{ErrorKind, LineError};
use bristol_circuit::gate::{parse_gate, parse_gate_and, parse_gate_inv, parse_gate_xor, Gate};

#[test]
fn each_tag_gives_its_gate() {
    assert_eq!(parse_gate("2 1 0 1 4 AND"), Ok(Gate::AND { input_a: 0, input_b: 1, output: 4 }));
    assert_eq!(parse_gate("2 1 42 43 44 XOR"), Ok(Gate::XOR { input_a: 42, input_b: 43, output: 44 }));
    assert_eq!(parse_gate("1 1 16 17 INV"), Ok(Gate::INV { input: 16, output: 17 }));
    assert_eq!(parse_gate("1 1 16 17 NOT"), Ok(Gate::INV { input: 16, output: 17 }));
}

#[test]
fn wires_are_the_numbers_in_the_line() {
    for (a, b, o) in [(0u32, 0u32, 0u32), (1, 2, 3), (4294967295, 7, 4294967294), (10, 4294967295, 11)] {
        let line = format!("2 1 {} {} {} XOR", a, b, o);
        assert_eq!(parse_gate(&line), Ok(Gate::XOR { input_a: a, input_b: b, output: o }));
        let line = format!("2 1 {} {} {} AND", a, b, o);
        assert_eq!(parse_gate(&line), Ok(Gate::AND { input_a: a, input_b: b, output: o }));
        let line = format!("1 1 {} {} INV", a, o);
        assert_eq!(parse_gate(&line), Ok(Gate::INV { input: a, output: o }));
    }
}

#[test]
fn tags_are_case_sensitive() {
    assert_eq!(parse_gate("2 1 0 1 4 and"), Err(LineError { kind: ErrorKind::UnknownGateType, field: 5 }));
    assert_eq!(parse_gate("2 1 0 1 4 Xor"), Err(LineError { kind: ErrorKind::UnknownGateType, field: 5 }));
    assert_eq!(parse_gate("1 1 0 1 inv"), Err(LineError { kind: ErrorKind::UnknownGateType, field: 4 }));
}

#[test]
fn unknown_tag_is_an_unknown_gate_type() {
    assert_eq!(parse_gate("2 1 0 1 4 FOO"), Err(LineError { kind: ErrorKind::UnknownGateType, field: 5 }));
    assert_eq!(parse_gate("2 1 0 1 4"), Err(LineError { kind: ErrorKind::UnknownGateType, field: 4 }));
    assert_eq!(parse_gate("XORX"), Err(LineError { kind: ErrorKind::UnknownGateType, field: 0 }));
}

#[test]
fn a_line_without_fields_has_no_tag() {
    assert_eq!(parse_gate(""), Err(LineError { kind: ErrorKind::UnknownGateType, field: 0 }));
    assert_eq!(parse_gate(" \t "), Err(LineError { kind: ErrorKind::UnknownGateType, field: 0 }));
}

#[test]
fn known_tags_that_are_not_built_are_unsupported() {
    assert_eq!(parse_gate("2 1 0 1 4 MAND"), Err(LineError { kind: ErrorKind::UnsupportedGateType, field: 5 }));
    assert_eq!(parse_gate("1 1 0 1 EQ"), Err(LineError { kind: ErrorKind::UnsupportedGateType, field: 4 }));
    assert_eq!(parse_gate("1 1 0 1 EQW"), Err(LineError { kind: ErrorKind::UnsupportedGateType, field: 4 }));
    assert_eq!(parse_gate("MAND"), Err(LineError { kind: ErrorKind::UnsupportedGateType, field: 0 }));
    assert_ne!(parse_gate("2 1 0 1 4 MAND"), parse_gate("2 1 0 1 4 FOO"));
}

#[test]
fn and_with_one_input_is_an_arity_mismatch() {
    assert_eq!(
        parse_gate("1 1 0 1 4 AND"),
        Err(LineError { kind: ErrorKind::ArityMismatch { expected: 2 }, field: 0 })
    );
}

#[test]
fn counts_must_read_exactly_as_the_tag_requires() {
    assert_eq!(
        parse_gate("3 1 0 1 4 XOR"),
        Err(LineError { kind: ErrorKind::ArityMismatch { expected: 2 }, field: 0 })
    );
    assert_eq!(
        parse_gate("2 2 0 1 4 XOR"),
        Err(LineError { kind: ErrorKind::ArityMismatch { expected: 1 }, field: 1 })
    );
    assert_eq!(
        parse_gate("2 1 0 1 INV"),
        Err(LineError { kind: ErrorKind::ArityMismatch { expected: 1 }, field: 0 })
    );
    assert_eq!(
        parse_gate("1 0 0 1 NOT"),
        Err(LineError { kind: ErrorKind::ArityMismatch { expected: 1 }, field: 1 })
    );
    assert_eq!(
        parse_gate("02 1 0 1 4 AND"),
        Err(LineError { kind: ErrorKind::ArityMismatch { expected: 2 }, field: 0 })
    );
    assert_eq!(
        parse_gate("+2 1 0 1 4 AND"),
        Err(LineError { kind: ErrorKind::ArityMismatch { expected: 2 }, field: 0 })
    );
    assert_eq!(parse_gate("AND"), Err(LineError { kind: ErrorKind::ArityMismatch { expected: 2 }, field: 0 }));
    assert_eq!(
        parse_gate("2 AND"),
        Err(LineError { kind: ErrorKind::ArityMismatch { expected: 1 }, field: 1 })
    );
}

#[test]
fn malformed_wires_are_reported_by_field() {
    assert_eq!(parse_gate("2 1 a 1 4 AND"), Err(LineError { kind: ErrorKind::MalformedNumber, field: 2 }));
    assert_eq!(parse_gate("2 1 0 -1 4 AND"), Err(LineError { kind: ErrorKind::MalformedNumber, field: 3 }));
    assert_eq!(
        parse_gate("2 1 0 1 4294967296 AND"),
        Err(LineError { kind: ErrorKind::MalformedNumber, field: 4 })
    );
    assert_eq!(parse_gate("1 1 0 1.5 INV"), Err(LineError { kind: ErrorKind::MalformedNumber, field: 3 }));
    assert_eq!(parse_gate("1 1 0x10 1 INV"), Err(LineError { kind: ErrorKind::MalformedNumber, field: 2 }));
}

#[test]
fn a_line_that_is_too_short_reads_its_tag_as_a_wire() {
    assert_eq!(parse_gate("2 1 0 1 AND"), Err(LineError { kind: ErrorKind::MalformedNumber, field: 4 }));
    assert_eq!(parse_gate("2 1 0 XOR"), Err(LineError { kind: ErrorKind::MalformedNumber, field: 3 }));
    assert_eq!(parse_gate("2 1 XOR"), Err(LineError { kind: ErrorKind::MalformedNumber, field: 2 }));
    assert_eq!(parse_gate("1 1 0 INV"), Err(LineError { kind: ErrorKind::MalformedNumber, field: 3 }));
}

#[test]
fn fields_between_the_wires_and_the_tag_are_not_read() {
    assert_eq!(parse_gate("2 1 0 1 4 9 9 AND"), Ok(Gate::AND { input_a: 0, input_b: 1, output: 4 }));
    assert_eq!(parse_gate("1 1 6 7 x NOT"), Ok(Gate::INV { input: 6, output: 7 }));
}

#[test]
fn surrounding_whitespace_is_not_part_of_a_field() {
    assert_eq!(parse_gate("  2\t1  0 1   4 AND  "), Ok(Gate::AND { input_a: 0, input_b: 1, output: 4 }));
    assert_eq!(parse_gate("1 1 6 7 INV\r"), Ok(Gate::INV { input: 6, output: 7 }));
}

#[test]
fn gate_readers_take_the_fields_of_a_line() {
    let binary = ["2", "1", "42", "43", "44", "XOR"];
    assert_eq!(parse_gate_xor(&binary), Ok(Gate::XOR { input_a: 42, input_b: 43, output: 44 }));
    assert_eq!(parse_gate_and(&binary), Ok(Gate::AND { input_a: 42, input_b: 43, output: 44 }));
    assert_eq!(
        parse_gate_inv(&binary),
        Err(LineError { kind: ErrorKind::ArityMismatch { expected: 1 }, field: 0 })
    );
    let unary = ["1", "1", "16", "17", "INV"];
    assert_eq!(parse_gate_inv(&unary), Ok(Gate::INV { input: 16, output: 17 }));
    assert_eq!(
        parse_gate_xor(&unary),
        Err(LineError { kind: ErrorKind::ArityMismatch { expected: 2 }, field: 0 })
    );
}

#[test]
fn gate_readers_report_missing_fields() {
    let none: [&str; 0] = [];
    assert_eq!(parse_gate_xor(&none), Err(LineError { kind: ErrorKind::ArityMismatch { expected: 2 }, field: 0 }));
    assert_eq!(parse_gate_and(&["2"]), Err(LineError { kind: ErrorKind::ArityMismatch { expected: 1 }, field: 1 }));
    assert_eq!(parse_gate_and(&["2", "1"]), Err(LineError { kind: ErrorKind::MalformedNumber, field: 2 }));
    assert_eq!(parse_gate_xor(&["2", "1", "0", "1"]), Err(LineError { kind: ErrorKind::MalformedNumber, field: 4 }));
    assert_eq!(parse_gate_inv(&["1", "1", "0"]), Err(LineError { kind: ErrorKind::MalformedNumber, field: 3 }));
    assert_eq!(parse_gate_inv(&["1", "1", "0", "1"]), Ok(Gate::INV { input: 0, output: 1 }));
}
