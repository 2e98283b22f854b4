use homopolymer_decompress::fasta_sequence_index::FastaSequenceIndex;
use homopolymer_decompress::fasta_sequence_index::IndexError;

fn records(pairs: &[(&[u8], &[u8])]) -> Vec<(Vec<u8>, Vec<u8>)> {
    pairs.iter().map(|(id, seq)| (id.to_vec(), seq.to_vec())).collect()
}

#[test]
fn build_then_get_returns_original_bytes() {
    // round trip: every id yields exactly the bytes it was built with
    let recs = records(&[
        (b"r1", b"AACCG"),
        (b"r2", b""),
        (b"r3", b"TTTTTTTT"),
        (b"longer_id_with_underscores", b"ACGTN"),
    ]);
    let index = FastaSequenceIndex::build(&recs).unwrap();
    let mut out = Vec::new();
    for (id, seq) in &recs {
        index.get_sequence(id, &mut out).unwrap();
        assert_eq!(&out, seq);
    }
}

#[test]
fn duplicate_id_is_rejected() {
    let recs = records(&[(b"r1", b"AC"), (b"r2", b"GG"), (b"r1", b"TT")]);
    match FastaSequenceIndex::build(&recs) {
        Err(error) => assert_eq!(error, IndexError::DuplicateId),
        Ok(_) => panic!("duplicate id was accepted"),
    }
}

#[test]
fn missing_id_is_rejected_and_output_untouched() {
    let recs = records(&[(b"r1", b"AC")]);
    let index = FastaSequenceIndex::build(&recs).unwrap();
    let mut out = b"unchanged".to_vec();
    assert_eq!(index.get_sequence(b"r2", &mut out), Err(IndexError::MissingId));
    assert_eq!(out, b"unchanged".to_vec());
}

#[test]
fn push_record_reports_duplicates() {
    let mut index = FastaSequenceIndex::new();
    index.push_record(b"a", b"ACGT").unwrap();
    assert_eq!(index.push_record(b"a", b"ACGT"), Err(IndexError::DuplicateId));
    index.push_record(b"b", b"GG").unwrap();
    let mut out = Vec::new();
    index.get_sequence(b"a", &mut out).unwrap();
    assert_eq!(out, b"ACGT".to_vec());
    index.get_sequence(b"b", &mut out).unwrap();
    assert_eq!(out, b"GG".to_vec());
}
