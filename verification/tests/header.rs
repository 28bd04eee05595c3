use bristol_circuit::header::{parse_header, parse_header_general, parse_header_io_wires, Header};
use bristol_circuit::error::{ErrorKind, LineError, ParseError};

#[test]
fn general_line_gives_gates_then_wires() {
    assert_eq!(parse_header_general("42 1337"), Ok((42, 1337)));
    assert_eq!(parse_header_general("  0\t4294967295  "), Ok((0, 4294967295)));
}

#[test]
fn general_line_ignores_further_fields() {
    assert_eq!(parse_header_general("42 1337 and more"), Ok((42, 1337)));
}

#[test]
fn general_line_needs_two_numbers() {
    assert_eq!(parse_header_general(""), Err(LineError { kind: ErrorKind::MalformedNumber, field: 0 }));
    assert_eq!(parse_header_general("x 1"), Err(LineError { kind: ErrorKind::MalformedNumber, field: 0 }));
    assert_eq!(parse_header_general("42"), Err(LineError { kind: ErrorKind::MalformedNumber, field: 1 }));
    assert_eq!(
        parse_header_general("42 4294967296"),
        Err(LineError { kind: ErrorKind::MalformedNumber, field: 1 })
    );
}

#[test]
fn port_line_has_as_many_widths_as_it_declares() {
    for line in ["0", "1 5", "3 10 20 30", "4 1 1 1 1", "2 64 64"] {
        let widths = parse_header_io_wires(line).unwrap();
        let declared: usize = line.split_whitespace().next().unwrap().parse().unwrap();
        assert_eq!(widths.len(), declared);
    }
    assert_eq!(parse_header_io_wires("3 10 20 30"), Ok(vec![10, 20, 30]));
    assert_eq!(parse_header_io_wires("0"), Ok(vec![]));
}

#[test]
fn port_line_with_too_few_widths_is_a_structural_error() {
    assert_eq!(
        parse_header_io_wires("3 1 1"),
        Err(LineError { kind: ErrorKind::StructuralError { expected: 3, found: 2 }, field: 0 })
    );
}

#[test]
fn port_line_with_too_many_widths_is_a_structural_error() {
    assert_eq!(
        parse_header_io_wires("1 1 1"),
        Err(LineError { kind: ErrorKind::StructuralError { expected: 1, found: 2 }, field: 0 })
    );
    assert_eq!(
        parse_header_io_wires("0 7"),
        Err(LineError { kind: ErrorKind::StructuralError { expected: 0, found: 1 }, field: 0 })
    );
}

#[test]
fn port_line_reports_the_first_malformed_width() {
    assert_eq!(
        parse_header_io_wires("3 1 x y"),
        Err(LineError { kind: ErrorKind::MalformedNumber, field: 2 })
    );
    assert_eq!(parse_header_io_wires("n 1"), Err(LineError { kind: ErrorKind::MalformedNumber, field: 0 }));
    assert_eq!(parse_header_io_wires("   "), Err(LineError { kind: ErrorKind::MalformedNumber, field: 0 }));
    assert_eq!(
        parse_header_io_wires("4294967296 1"),
        Err(LineError { kind: ErrorKind::MalformedNumber, field: 0 })
    );
}

#[test]
fn port_count_is_checked_before_the_widths() {
    assert_eq!(
        parse_header_io_wires("3 x 1"),
        Err(LineError { kind: ErrorKind::StructuralError { expected: 3, found: 2 }, field: 0 })
    );
}

#[test]
fn header_reads_three_lines_by_position() {
    let lines = vec!["42 1337", "3 10 20 30", "2 10 20", "not looked at"];
    assert_eq!(
        parse_header(&lines),
        Ok(Header {
            num_gates: 42,
            num_wires: 1337,
            num_input_wires: vec![10, 20, 30],
            num_output_wires: vec![10, 20],
        })
    );
}

#[test]
fn header_lengths_match_declared_port_counts() {
    let lines = vec!["1 2", "2 3 4", "5 1 2 3 4 5"];
    let header = parse_header(&lines).unwrap();
    assert_eq!(header.num_input_wires.len(), 2);
    assert_eq!(header.num_output_wires.len(), 5);
}

#[test]
fn header_needs_three_lines() {
    let none: Vec<&str> = vec![];
    assert_eq!(
        parse_header(&none),
        Err(ParseError { kind: ErrorKind::StructuralError { expected: 3, found: 0 }, line: 0, field: 0 })
    );
    assert_eq!(
        parse_header(&["1 2", "1 1"]),
        Err(ParseError { kind: ErrorKind::StructuralError { expected: 3, found: 2 }, line: 2, field: 0 })
    );
}

#[test]
fn header_reports_the_line_that_failed() {
    assert_eq!(
        parse_header(&["1", "1 1", "1 1"]),
        Err(ParseError { kind: ErrorKind::MalformedNumber, line: 0, field: 1 })
    );
    assert_eq!(
        parse_header(&["1 2", "1 1 1", "2 1"]),
        Err(ParseError { kind: ErrorKind::StructuralError { expected: 1, found: 2 }, line: 1, field: 0 })
    );
    assert_eq!(
        parse_header(&["1 2", "1 1", "1 z"]),
        Err(ParseError { kind: ErrorKind::MalformedNumber, line: 2, field: 1 })
    );
}
