use homopolymer_decompress::decompress::count_runs;
use homopolymer_decompress::decompress::decompress;

#[test]
fn test_decompress() {
    let sequence = vec![0, 0, 1, 1, 2, 3, 3, 3, 4, 5];
    let tests = [
        (2, 4, 4, 8),
        (0, 0, 0, 0),
        (0, 1, 0, 2),
        (0, 2, 0, 4),
        (1, 2, 2, 4),
        (2, 2, 4, 4),
        (1, 3, 2, 5),
        (2, 3, 4, 5),
        (3, 4, 5, 8),
        (3, 5, 5, 9),
        (4, 5, 8, 9),
        (5, 5, 9, 9),
        (0, 6, 0, 10),
        (4, 6, 8, 10),
        (5, 6, 9, 10),
        (6, 6, 10, 10),
    ];
    for (offset, limit, shifted_offset, shifted_limit) in tests {
        let (decompressed_offset, decompressed_limit) = decompress(offset, limit, &sequence);
        assert_eq!((decompressed_offset, decompressed_limit), (shifted_offset, shifted_limit), "({offset}, {limit}): expected ({shifted_offset}, {shifted_limit}) but got ({decompressed_offset}, {decompressed_limit})");
    }
}

#[test]
fn decompress_empty_sequence() {
    let sequence: Vec<u8> = Vec::new();
    assert_eq!(decompress(0, 0, &sequence), (0, 0));
}

#[test]
fn decompress_zero_zero_is_zero_zero() {
    // compressed position 0 always maps to uncompressed position 0
    for sequence in [
        vec![],
        vec![7],
        vec![1, 1, 1],
        vec![1, 2, 3],
        vec![0, 0, 1, 1, 2, 3, 3, 3, 4, 5],
    ] {
        assert_eq!(decompress(0, 0, &sequence), (0, 0));
    }
}

#[test]
fn decompress_full_range_spans_sequence() {
    let sequence = vec![5, 5, 5, 9, 9, 2];
    let n = count_runs(&sequence);
    assert_eq!(n, 3);
    assert_eq!(decompress(0, n, &sequence), (0, sequence.len()));
}

#[test]
fn count_runs_counts_maximal_stretches() {
    assert_eq!(count_runs(&[]), 0);
    assert_eq!(count_runs(&[4]), 1);
    assert_eq!(count_runs(&[4, 4, 4]), 1);
    assert_eq!(count_runs(&[0, 0, 1, 1, 2, 3, 3, 3, 4, 5]), 6);
}

#[test]
fn decompress_window_has_expected_run_count() {
    // the decompressed window of (o, l) holds exactly l - o runs
    let sequence = vec![0, 0, 1, 1, 2, 3, 3, 3, 4, 5];
    for (offset, limit) in [(0, 0), (0, 1), (1, 2), (2, 4), (3, 5), (0, 6), (6, 6)] {
        let (so, sl) = decompress(offset, limit, &sequence);
        assert_eq!(count_runs(&sequence[so..sl]), limit - offset);
    }
}
