use hyperblow::piece_assembler::{ranges_overlap, PieceAssembler, PieceAssemblyError};
use sha1::{Digest, Sha1};

#[test]
fn assembles_and_hash_validates_piece() {
    let piece = b"hello bittorrent piece".to_vec();
    let expected_hash: [u8; 20] = Sha1::digest(&piece).into();
    let mut assembler = PieceAssembler::new(expected_hash, piece.len());

    assembler.insert_block(6, piece[6..].to_vec()).expect("tail block");
    assembler.insert_block(0, piece[..6].to_vec()).expect("head block");

    assert_eq!(assembler.assemble().expect("piece should validate"), piece);
}

#[test]
fn rejects_overlapping_blocks() {
    let mut assembler = PieceAssembler::new([0; 20], 10);
    assembler.insert_block(0, vec![1, 2, 3, 4]).expect("first block");

    assert_eq!(
        assembler.insert_block(3, vec![5, 6]).expect_err("overlap should fail"),
        PieceAssemblyError::OverlappingBlock
    );
}

#[test]
fn rejects_incomplete_piece() {
    let mut assembler = PieceAssembler::new([0; 20], 10);
    assembler.insert_block(0, vec![1, 2, 3, 4]).expect("partial block");

    assert_eq!(
        assembler.assemble().expect_err("incomplete should fail"),
        PieceAssemblyError::Incomplete
    );
}

#[test]
fn rejects_hash_mismatch() {
    let mut assembler = PieceAssembler::new([0; 20], 4);
    assembler.insert_block(0, vec![1, 2, 3, 4]).expect("complete block");

    assert_eq!(
        assembler.assemble().expect_err("hash mismatch should fail"),
        PieceAssemblyError::HashMismatch
    );
}

#[test]
fn rejects_blocks_outside_the_piece() {
    let mut assembler = PieceAssembler::new([0; 20], 4);

    assert_eq!(
        assembler.insert_block(4, vec![1]).expect_err("past the end"),
        PieceAssemblyError::BlockOutOfRange { begin: 4, piece_length: 4 }
    );
    assert_eq!(
        assembler.insert_block(2, vec![1, 2, 3]).expect_err("too long"),
        PieceAssemblyError::BlockTooLong { end: 5, piece_length: 4 }
    );
    assert!(!assembler.is_complete());
}

#[test]
fn blocks_placed_by_offset_form_the_piece() {
    let piece = b"abcdefgh".to_vec();
    let expected_hash: [u8; 20] = Sha1::digest(&piece).into();
    let mut assembler = PieceAssembler::new(expected_hash, 8);
    assembler.insert_block(4, b"efgh".to_vec()).expect("second half");
    assert!(!assembler.is_complete());
    assembler.insert_block(0, b"abcd".to_vec()).expect("first half");
    assert!(assembler.is_complete());
    assert_eq!(assembler.assemble().expect("valid"), piece);
}

#[test]
fn half_open_ranges_overlap_only_when_they_share_a_position() {
    assert!(ranges_overlap(0..4, 3..5));
    assert!(!ranges_overlap(0..4, 4..5));
    assert!(!ranges_overlap(5..6, 0..5));
}

#[test]
fn a_block_whose_end_passes_usize_max_is_too_long() {
    let mut assembler = PieceAssembler::new([0; 20], usize::MAX - 1);
    assert_eq!(
        assembler.insert_block(usize::MAX - 3, vec![0; 10]),
        Err(PieceAssemblyError::BlockTooLong { end: usize::MAX, piece_length: usize::MAX - 1 })
    );
    assert_eq!(
        assembler.insert_block(usize::MAX - 1, vec![0; 10]),
        Err(PieceAssemblyError::BlockOutOfRange { begin: usize::MAX - 1, piece_length: usize::MAX - 1 })
    );
}
