use homopolymer_decompress::wtdbg2_ctg_lay::format_line;
use homopolymer_decompress::wtdbg2_ctg_lay::parse_line;
use homopolymer_decompress::wtdbg2_ctg_lay::LineContext;
use homopolymer_decompress::wtdbg2_ctg_lay::ParseError;
use homopolymer_decompress::wtdbg2_ctg_lay::Wtdbg2CtgLayLine;

#[test]
fn parse_contig_line() {
    let line = parse_line(b">c1\tnodes=2\tlen=0").unwrap();
    match line {
        Wtdbg2CtgLayLine::Contig { name, node_count, length } => {
            assert_eq!(name, b"c1".to_vec());
            assert_eq!(node_count, 2);
            assert_eq!(length, 0);
        },
        other => panic!("not a contig: {other:?}"),
    }
}

#[test]
fn parse_edge_line() {
    let line = parse_line(b"E\t128\tn1\t+\tn2\t-").unwrap();
    match line {
        Wtdbg2CtgLayLine::Edge { offset, from_node, from_direction, to_node, to_direction } => {
            assert_eq!(offset, 128);
            assert_eq!(from_node, b"n1".to_vec());
            assert!(from_direction);
            assert_eq!(to_node, b"n2".to_vec());
            assert!(!to_direction);
        },
        other => panic!("not an edge: {other:?}"),
    }
}

#[test]
fn parse_alignment_line() {
    let line = parse_line(b"S\tr1\t-\t5\t17\tACGT").unwrap();
    match line {
        Wtdbg2CtgLayLine::Alignment { read_id, direction, offset, length, original_length } => {
            assert_eq!(read_id, b"r1".to_vec());
            assert!(!direction);
            assert_eq!(offset, 5);
            assert_eq!(length, 17);
            // the pre-decompression length is preserved alongside
            assert_eq!(original_length, 17);
        },
        other => panic!("not an alignment: {other:?}"),
    }
}

#[test]
fn parse_rejects_malformed_lines() {
    assert_eq!(parse_line(b""), Err(ParseError::UnknownLineKind));
    assert_eq!(parse_line(b"X\tfoo"), Err(ParseError::UnknownLineKind));
    assert_eq!(parse_line(b">c1"), Err(ParseError::MissingField));
    assert_eq!(parse_line(b">c1\tnodes=\tlen=3"), Err(ParseError::InvalidNumber));
    assert_eq!(parse_line(b">c1\tnodes=2x\tlen=3"), Err(ParseError::InvalidNumber));
    assert_eq!(parse_line(b">c1\tfoo=2\tlen=3"), Err(ParseError::MissingField));
    assert_eq!(parse_line(b">c1\tnodes=2"), Err(ParseError::MissingField));
    assert_eq!(parse_line(b"E\t12\tn1\t*\tn2\t+"), Err(ParseError::InvalidDirection));
    assert_eq!(parse_line(b"E\t12\tn1\t+\tn2"), Err(ParseError::MissingField));
    assert_eq!(parse_line(b"E\tabc\tn1\t+\tn2\t+"), Err(ParseError::InvalidNumber));
    assert_eq!(parse_line(b"S\tr1\t+\t0"), Err(ParseError::MissingField));
    assert_eq!(parse_line(b"S\tr1\t%\t0\t3\t"), Err(ParseError::InvalidDirection));
    assert_eq!(parse_line(b"S\tr1\t+\t0\tx\t"), Err(ParseError::InvalidNumber));
    // a number too large for 64 bits is rejected
    assert_eq!(
        parse_line(b">c1\tnodes=99999999999999999999\tlen=3"),
        Err(ParseError::InvalidNumber)
    );
}

#[test]
fn format_contig_line() {
    let line = Wtdbg2CtgLayLine::Contig { name: b"ctg7".to_vec(), node_count: 12, length: 3456 };
    assert_eq!(format_line(&line), b">ctg7\tnodes=12\tlen=3456".to_vec());
}

#[test]
fn format_edge_line() {
    let line = Wtdbg2CtgLayLine::Edge {
        offset: 0,
        from_node: b"n1".to_vec(),
        from_direction: true,
        to_node: b"n2".to_vec(),
        to_direction: false,
    };
    assert_eq!(format_line(&line), b"E\t0\tn1\t+\tn2\t-".to_vec());
}

#[test]
fn format_alignment_line_ends_with_tab() {
    let line = Wtdbg2CtgLayLine::Alignment {
        read_id: b"r1".to_vec(),
        direction: true,
        offset: 0,
        length: 5,
        original_length: 3,
    };
    // the trailing TAB lets sequence bytes follow with no separator
    assert_eq!(format_line(&line), b"S\tr1\t+\t0\t5\t".to_vec());
}

#[test]
fn format_then_parse_round_trips() {
    let lines = [
        Wtdbg2CtgLayLine::Contig { name: b"c".to_vec(), node_count: 0, length: u64::MAX },
        Wtdbg2CtgLayLine::Edge {
            offset: 18446744073709551615,
            from_node: b"a".to_vec(),
            from_direction: false,
            to_node: b"b".to_vec(),
            to_direction: true,
        },
    ];
    for line in lines {
        let bytes = format_line(&line);
        assert_eq!(parse_line(&bytes).unwrap(), line);
    }
}

#[test]
fn default_context_is_before_first_record() {
    let ctx = LineContext::default();
    assert_eq!(ctx.contig_index, -1);
    assert_eq!(ctx.edge_index, -1);
    assert_eq!(ctx.alignment_index, -1);
    assert_eq!(ctx.previous_contig_edge_count, 0);
    assert_eq!(ctx.previous_edge_alignment_count, 0);
}

#[test]
fn directly_precedes_within_edge() {
    let a = LineContext {
        contig_index: 0,
        edge_index: 0,
        alignment_index: 0,
        previous_contig_edge_count: 0,
        previous_edge_alignment_count: 0,
    };
    let b = LineContext { alignment_index: 1, ..a };
    assert!(a.directly_precedes(&b));
    assert!(!b.directly_precedes(&a));
    assert!(!a.directly_precedes(&a));
}

#[test]
fn directly_precedes_across_edges_and_contigs() {
    // last alignment of an edge directly precedes the next edge
    let a = LineContext {
        contig_index: 0,
        edge_index: 0,
        alignment_index: 1,
        previous_contig_edge_count: 0,
        previous_edge_alignment_count: 0,
    };
    let b = LineContext {
        contig_index: 0,
        edge_index: 1,
        alignment_index: -1,
        previous_contig_edge_count: 0,
        previous_edge_alignment_count: 2,
    };
    assert!(a.directly_precedes(&b));
    // last alignment of a contig directly precedes the next contig
    let c = LineContext {
        contig_index: 1,
        edge_index: -1,
        alignment_index: -1,
        previous_contig_edge_count: 2,
        previous_edge_alignment_count: 2,
    };
    let d = LineContext {
        contig_index: 0,
        edge_index: 1,
        alignment_index: 1,
        previous_contig_edge_count: 0,
        previous_edge_alignment_count: 2,
    };
    assert!(d.directly_precedes(&c));
    assert!(!a.directly_precedes(&c));
}

#[test]
fn default_context_directly_precedes_first_contig() {
    let start = LineContext::default();
    let first = LineContext {
        contig_index: 0,
        edge_index: -1,
        alignment_index: -1,
        previous_contig_edge_count: 0,
        previous_edge_alignment_count: 0,
    };
    assert!(start.directly_precedes(&first));
}
