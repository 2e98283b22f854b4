//! Post-processing for homopolymer-compressed contig layouts: coordinate
//! decompression, a byte-sequence index over FASTA records, and the ordered
//! rewriting of layout records with recomputed offsets and lengths.

pub mod decompress;
pub mod fasta_sequence_index;
pub mod pipeline;
pub mod wtdbg2_ctg_lay;
