use nitrogfx::ntr::{NtrFile, NtrFileBlock};
use nitrogfx::{NtrError, NtrFileVersion};

fn sample_file() -> NtrFile {
    NtrFile::new(
        *b"RLCN",
        NtrFileVersion::Version0101,
        vec![
            NtrFileBlock::new(*b"TTLP", vec![1, 2, 3]),
            NtrFileBlock::new(*b"PMCP", vec![]),
        ],
    )
}

#[test]
fn container_header_bytes() {
    let data = sample_file().write_to_data().unwrap();
    // 16 header bytes + (8 + 3) + (8 + 0)
    assert_eq!(data.len(), 35);
    assert_eq!(&data[0..4], b"RLCN");
    assert_eq!(&data[4..6], &[0xFF, 0xFE]);
    assert_eq!(&data[6..8], &[0x01, 0x01]);
    assert_eq!(&data[8..12], &[35, 0, 0, 0]);
    assert_eq!(&data[12..14], &[16, 0]);
    assert_eq!(&data[14..16], &[2, 0]);
    assert_eq!(&data[16..20], b"TTLP");
    assert_eq!(&data[20..24], &[11, 0, 0, 0]);
    assert_eq!(&data[24..27], &[1, 2, 3]);
    assert_eq!(&data[27..31], b"PMCP");
    assert_eq!(&data[31..35], &[8, 0, 0, 0]);
}

#[test]
fn container_round_trip() {
    let f = sample_file();
    let data = f.write_to_data().unwrap();
    let g = NtrFile::read_from_data(&data).unwrap();
    assert_eq!(g.id(), f.id());
    assert_eq!(g.version(), f.version());
    assert_eq!(g.blocks().len(), 2);
    for (a, b) in g.blocks().iter().zip(f.blocks().iter()) {
        assert_eq!(a.id(), b.id());
        assert_eq!(a.contents(), b.contents());
    }
}

#[test]
fn container_rejects_unknown_byte_order() {
    let mut data = sample_file().write_to_data().unwrap();
    data[4] = 0xFE;
    data[5] = 0xFF;
    assert!(matches!(NtrFile::read_from_data(&data), Err(NtrError::Unsupported)));
}

#[test]
fn container_rejects_unknown_version() {
    let mut data = sample_file().write_to_data().unwrap();
    data[6] = 0x02;
    assert!(matches!(NtrFile::read_from_data(&data), Err(NtrError::Unsupported)));
}

#[test]
fn container_rejects_truncated_block() {
    let data = sample_file().write_to_data().unwrap();
    assert!(matches!(NtrFile::read_from_data(&data[..30]), Err(NtrError::Malformed)));
    assert!(matches!(NtrFile::read_from_data(&data[..10]), Err(NtrError::Malformed)));
}

#[test]
fn container_rejects_bad_header_size() {
    let mut data = sample_file().write_to_data().unwrap();
    data[12] = 17;
    assert!(matches!(NtrFile::read_from_data(&data), Err(NtrError::Malformed)));
}

#[test]
fn label_block_layout() {
    let labels = vec![b"ab".to_vec(), b"c".to_vec()];
    let block = NtrFile::write_labl_block(&labels).unwrap();
    assert_eq!(block.id(), b"LBAL");
    assert_eq!(
        block.contents(),
        &[0, 0, 0, 0, 3, 0, 0, 0, b'a', b'b', 0, b'c', 0]
    );
}

#[test]
fn label_block_round_trip() {
    let labels = vec![b"cell0".to_vec(), b"cell1".to_vec(), b"x".to_vec()];
    let block = NtrFile::write_labl_block(&labels).unwrap();
    assert_eq!(NtrFile::read_labl_block(&block).unwrap(), labels);
}

#[test]
fn label_scan_stops_at_first_non_increasing_offset() {
    // offsets 0 and 4 are taken; the third word (2) is not above 4, so only two
    // labels are read, starting right after the two offsets
    let block = NtrFileBlock::new(*b"LBAL", vec![0, 0, 0, 0, 4, 0, 0, 0, 2, 0, 0, 0, b'x', 0]);
    let labels = NtrFile::read_labl_block(&block).unwrap();
    assert_eq!(labels, vec![vec![2u8], vec![]]);
}

#[test]
fn label_scan_keeps_empty_labels() {
    let labels = vec![b"".to_vec(), b"".to_vec(), b"abcdefgh".to_vec()];
    let block = NtrFile::write_labl_block(&labels).unwrap();
    assert_eq!(NtrFile::read_labl_block(&block).unwrap(), labels);
}

#[test]
fn label_scan_running_off_the_end_fails() {
    // one label: after the offset only two bytes remain, too few for another word
    let block = NtrFile::write_labl_block(&[b"a".to_vec()]).unwrap();
    assert!(matches!(NtrFile::read_labl_block(&block), Err(NtrError::Malformed)));
}

#[test]
fn label_block_rejects_wrong_tag_and_high_bytes() {
    let block = NtrFileBlock::new(*b"XXXX", vec![0, 0, 0, 0, b'a', 0]);
    assert!(NtrFile::read_labl_block(&block).is_err());
    let block = NtrFileBlock::new(*b"LBAL", vec![0, 0, 0, 0, 200, 0]);
    assert!(matches!(NtrFile::read_labl_block(&block), Err(NtrError::Malformed)));
}
