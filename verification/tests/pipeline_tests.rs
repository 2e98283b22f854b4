use homopolymer_decompress::fasta_sequence_index::FastaSequenceIndex;
use homopolymer_decompress::pipeline::advance_context;
use homopolymer_decompress::pipeline::decompress_alignment;
use homopolymer_decompress::pipeline::reverse_complement;
use homopolymer_decompress::pipeline::OutputStage;
use homopolymer_decompress::pipeline::PipelineError;
use homopolymer_decompress::pipeline::ReorderBuffer;
use homopolymer_decompress::wtdbg2_ctg_lay::parse_line;
use homopolymer_decompress::wtdbg2_ctg_lay::LineContext;
use homopolymer_decompress::wtdbg2_ctg_lay::Wtdbg2CtgLayLine;
use homopolymer_decompress::wtdbg2_ctg_lay::Wtdbg2CtgLayLineWithContext;

#[test]
fn reverse_complement_swaps_and_reverses() {
    assert_eq!(reverse_complement(b"ACGTN"), b"NACGT".to_vec());
    assert_eq!(reverse_complement(b""), Vec::<u8>::new());
    assert_eq!(reverse_complement(b"AACCG"), b"CGGTT".to_vec());
}

#[test]
fn decompress_alignment_forward() {
    let line = Wtdbg2CtgLayLine::Alignment {
        read_id: b"r1".to_vec(),
        direction: true,
        offset: 0,
        length: 3,
        original_length: 3,
    };
    let (new_line, payload) = decompress_alignment(&line, b"AACCG").unwrap();
    match new_line {
        Wtdbg2CtgLayLine::Alignment { offset, length, original_length, .. } => {
            assert_eq!(offset, 0);
            assert_eq!(length, 5);
            assert_eq!(original_length, 3);
        },
        other => panic!("not an alignment: {other:?}"),
    }
    assert_eq!(payload, b"AACCG".to_vec());
}

#[test]
fn decompress_alignment_reverse_complements() {
    let line = Wtdbg2CtgLayLine::Alignment {
        read_id: b"r1".to_vec(),
        direction: false,
        offset: 0,
        length: 3,
        original_length: 3,
    };
    let (_, payload) = decompress_alignment(&line, b"AACCG").unwrap();
    assert_eq!(payload, b"CGGTT".to_vec());
}

#[test]
fn decompress_alignment_rejects_bad_input() {
    let line = Wtdbg2CtgLayLine::Alignment {
        read_id: b"r1".to_vec(),
        direction: true,
        offset: 2,
        length: 5,
        original_length: 5,
    };
    // AACCG has 3 runs, so limit 7 lies outside the read
    assert_eq!(
        decompress_alignment(&line, b"AACCG"),
        Err(PipelineError::CoordinatesOutOfRange)
    );
    let reverse = Wtdbg2CtgLayLine::Alignment {
        read_id: b"r1".to_vec(),
        direction: false,
        offset: 0,
        length: 2,
        original_length: 2,
    };
    assert_eq!(
        decompress_alignment(&reverse, b"AAXC"),
        Err(PipelineError::UnknownDnaBase)
    );
    let contig = Wtdbg2CtgLayLine::Contig { name: b"c".to_vec(), node_count: 0, length: 0 };
    assert_eq!(decompress_alignment(&contig, b""), Err(PipelineError::UnexpectedRecord));
}

#[test]
fn advance_context_requires_open_scopes() {
    let start = LineContext::default();
    let edge = parse_line(b"E\t0\tn1\t+\tn2\t+").unwrap();
    assert_eq!(advance_context(&start, &edge), Err(PipelineError::ContigNotOpen));
    let contig = parse_line(b">c1\tnodes=2\tlen=0").unwrap();
    let after_contig = advance_context(&start, &contig).unwrap();
    let alignment = parse_line(b"S\tr1\t+\t0\t3\t").unwrap();
    assert_eq!(advance_context(&after_contig, &alignment), Err(PipelineError::EdgeNotOpen));
    let after_edge = advance_context(&after_contig, &edge).unwrap();
    let after_alignment = advance_context(&after_edge, &alignment).unwrap();
    assert!(after_contig.directly_precedes(&after_edge));
    assert!(after_edge.directly_precedes(&after_alignment));
}

#[test]
fn reorder_buffer_restores_input_order() {
    let contig = parse_line(b">c1\tnodes=2\tlen=0").unwrap();
    let edge = parse_line(b"E\t0\tn1\t+\tn2\t+").unwrap();
    let alignment = parse_line(b"S\tr1\t+\t0\t3\t").unwrap();
    let start = LineContext::default();
    let c1 = advance_context(&start, &contig).unwrap();
    let c2 = advance_context(&c1, &edge).unwrap();
    let c3 = advance_context(&c2, &alignment).unwrap();

    let mut buffer = ReorderBuffer::new();
    // deliver out of order, as parallel decompressors may
    buffer
        .insert(
            Wtdbg2CtgLayLineWithContext { line: alignment.clone(), context: c3 },
            Some(b"AACCG".to_vec()),
        )
        .unwrap();
    buffer
        .insert(Wtdbg2CtgLayLineWithContext { line: contig.clone(), context: c1 }, None)
        .unwrap();
    buffer
        .insert(Wtdbg2CtgLayLineWithContext { line: edge.clone(), context: c2 }, None)
        .unwrap();

    let mut current = LineContext::default();
    let mut popped = Vec::new();
    while let Some((item, _payload)) = buffer.pop_ready(&current) {
        current = item.context;
        popped.push(item.line);
    }
    assert_eq!(popped, vec![contig, edge, alignment]);
}

#[test]
fn reorder_buffer_rejects_duplicates_and_mismatches() {
    let contig = parse_line(b">c1\tnodes=2\tlen=0").unwrap();
    let c1 = advance_context(&LineContext::default(), &contig).unwrap();
    let mut buffer = ReorderBuffer::new();
    buffer
        .insert(Wtdbg2CtgLayLineWithContext { line: contig.clone(), context: c1 }, None)
        .unwrap();
    assert_eq!(
        buffer.insert(Wtdbg2CtgLayLineWithContext { line: contig.clone(), context: c1 }, None),
        Err(PipelineError::DuplicateContext)
    );
    let mismatched = LineContext { previous_contig_edge_count: 7, ..c1 };
    assert_eq!(
        buffer.insert(
            Wtdbg2CtgLayLineWithContext { line: contig.clone(), context: mismatched },
            None
        ),
        Err(PipelineError::CarryoverMismatch)
    );
}

#[test]
fn output_stage_rejects_records_outside_a_contig() {
    let edge = parse_line(b"E\t0\tn1\t+\tn2\t+").unwrap();
    let mut stage = OutputStage::new();
    assert_eq!(stage.process(edge.clone(), None), Err(PipelineError::ContigNotOpen));
    let contig = parse_line(b">c1\tnodes=2\tlen=0").unwrap();
    assert_eq!(stage.process(contig.clone(), Some(Vec::new())), Err(PipelineError::UnexpectedRecord));
    assert_eq!(stage.process(contig, None), Ok(None));
    assert_eq!(stage.process(edge, Some(Vec::new())), Err(PipelineError::UnexpectedRecord));
}

/// Runs parser, decorator, decompressor, sorter and writer over the given
/// layout lines against the given FASTA records, all in one thread.
fn run_pipeline(lines: &[&[u8]], fasta: &[(&[u8], &[u8])]) -> Vec<u8> {
    let records: Vec<(Vec<u8>, Vec<u8>)> =
        fasta.iter().map(|(id, seq)| (id.to_vec(), seq.to_vec())).collect();
    let index = FastaSequenceIndex::build(&records).unwrap();
    let mut buffer = ReorderBuffer::new();
    let mut context = LineContext::default();
    for raw in lines {
        let line = parse_line(raw).unwrap();
        context = advance_context(&context, &line).unwrap();
        match &line {
            Wtdbg2CtgLayLine::Alignment { read_id, .. } => {
                let mut sequence = Vec::new();
                index.get_sequence(read_id, &mut sequence).unwrap();
                let (decompressed, payload) = decompress_alignment(&line, &sequence).unwrap();
                buffer
                    .insert(
                        Wtdbg2CtgLayLineWithContext { line: decompressed, context },
                        Some(payload),
                    )
                    .unwrap();
            },
            _ => {
                buffer
                    .insert(Wtdbg2CtgLayLineWithContext { line, context }, None)
                    .unwrap();
            },
        }
    }
    let mut stage = OutputStage::new();
    let mut output = Vec::new();
    let mut current = LineContext::default();
    while let Some((item, payload)) = buffer.pop_ready(&current) {
        current = item.context;
        if let Some(bytes) = stage.process(item.line, payload).unwrap() {
            output.extend_from_slice(&bytes);
        }
    }
    if let Some(bytes) = stage.finish().unwrap() {
        output.extend_from_slice(&bytes);
    }
    output
}

#[test]
fn end_to_end_forward_alignment() {
    let output = run_pipeline(
        &[b">c1\tnodes=2\tlen=0", b"E\t0\tn1\t+\tn2\t+", b"S\tr1\t+\t0\t3\t"],
        &[(b"r1", b"AACCG")],
    );
    let expected = b">c1\tnodes=2\tlen=5\nE\t0\tn1\t+\tn2\t+\nS\tr1\t+\t0\t5\tAACCG\n".to_vec();
    assert_eq!(String::from_utf8(output).unwrap(), String::from_utf8(expected).unwrap());
}

#[test]
fn end_to_end_reverse_alignment() {
    let output = run_pipeline(
        &[b">c1\tnodes=2\tlen=0", b"E\t0\tn1\t+\tn2\t+", b"S\tr1\t-\t0\t3\t"],
        &[(b"r1", b"AACCG")],
    );
    let expected = b">c1\tnodes=2\tlen=5\nE\t0\tn1\t+\tn2\t+\nS\tr1\t-\t0\t5\tCGGTT\n".to_vec();
    assert_eq!(String::from_utf8(output).unwrap(), String::from_utf8(expected).unwrap());
}

#[test]
fn end_to_end_preserves_record_order() {
    // two contigs; records come back in input order even though the
    // pipeline is fed nothing but the same lines
    let output = run_pipeline(
        &[
            b">c1\tnodes=2\tlen=0",
            b"E\t0\tn1\t+\tn2\t+",
            b"S\tr1\t+\t0\t3\t",
            b"S\tr2\t+\t0\t1\t",
            b">c2\tnodes=2\tlen=0",
            b"E\t0\tn3\t+\tn4\t-",
            b"S\tr2\t+\t0\t1\t",
        ],
        &[(b"r1", b"AACCG"), (b"r2", b"GG")],
    );
    let text = String::from_utf8(output).unwrap();
    let lines: Vec<&str> = text.lines().collect();
    assert_eq!(
        lines,
        vec![
            ">c1\tnodes=2\tlen=4",
            "E\t0\tn1\t+\tn2\t+",
            "S\tr1\t+\t0\t5\tAACCG",
            "S\tr2\t+\t0\t2\tGG",
            ">c2\tnodes=2\tlen=2",
            "E\t0\tn3\t+\tn4\t-",
            "S\tr2\t+\t0\t2\tGG",
        ]
    );
}

#[test]
fn edge_offset_is_rescaled_by_preceding_edge_statistics() {
    // second edge's offset delta is scaled by decompressed/compressed
    // length ratio of the preceding edge's alignments: 10 * 6/3 = 20
    let output = run_pipeline(
        &[
            b">c1\tnodes=3\tlen=0",
            b"E\t0\tn1\t+\tn2\t+",
            b"S\tr1\t+\t0\t3\t",
            b"E\t10\tn2\t+\tn3\t+",
            b"S\tr2\t+\t0\t1\t",
        ],
        &[(b"r1", b"AABBCC"), (b"r2", b"TTTT")],
    );
    let text = String::from_utf8(output).unwrap();
    let lines: Vec<&str> = text.lines().collect();
    // first edge: delta 0 -> offset 0; alignment r1: length 6 (3 runs from 6 bytes)
    // second edge: delta 10 scaled by 6/3 -> offset 20
    // alignment r2: length 4 (1 run), estimate 4; contig len = 20 + 4 = 24
    assert_eq!(
        lines,
        vec![
            ">c1\tnodes=3\tlen=24",
            "E\t0\tn1\t+\tn2\t+",
            "S\tr1\t+\t0\t6\tAABBCC",
            "E\t20\tn2\t+\tn3\t+",
            "S\tr2\t+\t0\t4\tTTTT",
        ]
    );
}
