use oasis_writer::oasis_bytes::OasisType;
use oasis_writer::write_bytes::OasisError;
use oasis_writer::writer::OasisRecordWriter;

fn end_record(cellname_offset: Option<u8>) -> Vec<u8> {
    let mut e = vec![2];
    match cellname_offset {
        Some(o) => e.extend_from_slice(&[1, o]),
        None => e.extend_from_slice(&[0, 0]),
    }
    e.extend_from_slice(&[0; 10]);
    let pad = 256 - (e.len() + 1);
    e.extend_from_slice(&[(pad as u8) | 0x80, 1]);
    e.extend(std::iter::repeat(0).take(pad));
    e.push(0);
    e
}

#[test]
fn new_writer_is_empty() {
    let w = OasisRecordWriter::new(Vec::new(), 1.0_f32.to_ne_bytes());
    assert!(w.bw.is_empty());
    assert_eq!(w.byte_ind, 0);
    assert_eq!(w.next_cell_refnum, 0);
    assert!(w.cell_names.is_empty());
    assert_eq!(w.oasis_type, OasisType::STANDARD);
    assert_eq!(w.cellname_table_offset, None);
}

#[test]
fn whole_file() {
    let p = 8000_f32.to_ne_bytes();
    let mut w = OasisRecordWriter::new(Vec::new(), p);
    assert_eq!(w.initialize_file(), Ok(()));
    assert_eq!(w.byte_ind, 24);
    assert_eq!(w.write_cell_record("topcell"), Ok(()));
    assert_eq!(w.write_rectangle_record(), Ok(()));
    assert_eq!(w.write_cell_record("cell2"), Ok(()));
    assert_eq!(w.write_cell_record("cell3"), Ok(()));
    assert_eq!(w.byte_ind, 39);
    assert_eq!(w.next_cell_refnum, 3);
    assert_eq!(w.cell_names, vec!["topcell".to_string(), "cell2".to_string(), "cell3".to_string()]);
    assert_eq!(w.close_file(), Ok(()));
    assert_eq!(w.cellname_table_offset, Some(39));
    assert_eq!(w.byte_ind, 320);

    let mut expected = b"%SEMI-OASIS\r\n".to_vec();
    expected.extend_from_slice(&[1, 3, b'1', b'.', b'0', 6]);
    expected.extend_from_slice(&p);
    expected.push(1);
    expected.extend_from_slice(&[13, 0]);
    expected.extend_from_slice(&[20, 0x7b, 1, 0, 100, 0xc8, 0x01, 0, 0]);
    expected.extend_from_slice(&[13, 1, 13, 2]);
    expected.extend_from_slice(&[3, 7]);
    expected.extend_from_slice(b"topcell");
    expected.extend_from_slice(&[3, 5]);
    expected.extend_from_slice(b"cell2");
    expected.extend_from_slice(&[3, 5]);
    expected.extend_from_slice(b"cell3");
    expected.extend_from_slice(&end_record(Some(39)));
    assert_eq!(w.bw, expected);
    assert_eq!(w.bw.len(), 320);
}

#[test]
fn end_record_is_two_bytes_past_its_length() {
    let mut w = OasisRecordWriter::new(Vec::new(), [0; 4]);
    assert_eq!(w.close_file(), Ok(()));
    assert_eq!(w.cellname_table_offset, Some(0));
    assert_eq!(w.bw, end_record(Some(0)));
    assert_eq!(w.bw.len(), 258);
    assert_eq!(w.byte_ind, 258);
}

#[test]
fn cellname_offset_points_at_the_names() {
    let mut w = OasisRecordWriter::new(Vec::new(), [0; 4]);
    w.write_cell_record("a").unwrap();
    w.write_cell_record("b").unwrap();
    w.close_file().unwrap();
    let off = w.cellname_table_offset.unwrap();
    assert_eq!(off, 4);
    assert_eq!(&w.bw[off..off + 6], &[3, 1, b'a', 3, 1, b'b']);
}

#[test]
fn rectangle_record_exact() {
    let mut w = OasisRecordWriter::new(Vec::new(), [0; 4]);
    assert_eq!(w.write_rectangle_record(), Ok(()));
    assert_eq!(w.bw, vec![20, 0x7b, 1, 0, 100, 0xc8, 0x01, 0, 0]);
    assert_eq!(w.byte_ind, 9);
}

#[test]
fn cell_refnums_count_up() {
    let mut w = OasisRecordWriter::new(Vec::new(), [0; 4]);
    for i in 0..130 {
        w.write_cell_record(&format!("c{}", i)).unwrap();
    }
    assert_eq!(w.next_cell_refnum, 130);
    assert_eq!(w.cell_names.len(), 130);
    // refnum 129 takes two bytes
    assert_eq!(&w.bw[w.bw.len() - 3..], &[13, 0x81, 0x01]);
}

#[test]
fn bad_cell_name_stops_close() {
    let mut w = OasisRecordWriter::new(Vec::new(), [0; 4]);
    w.write_cell_record("good").unwrap();
    w.write_cell_record("bad name").unwrap();
    w.write_cell_record("never").unwrap();
    let before = w.bw.len();
    assert_eq!(w.close_file(), Err(OasisError::SpaceInNString));
    // the good name, then the id and length of the bad one; no END record
    let mut tail = vec![3, 4];
    tail.extend_from_slice(b"good");
    tail.extend_from_slice(&[3, 8]);
    assert_eq!(&w.bw[before..], &tail[..]);
    // the failed string's length is written but not counted
    assert_eq!(w.byte_ind, before + tail.len() - 1);
}

#[test]
fn empty_cell_name_stops_close() {
    let mut w = OasisRecordWriter::new(Vec::new(), [0; 4]);
    w.write_cell_record("").unwrap();
    assert_eq!(w.close_file(), Err(OasisError::EmptyNString));
    assert_eq!(&w.bw[2..], &[3]);
    assert_eq!(w.byte_ind, 3);
}

#[test]
fn writer_appends_to_existing_buffer() {
    let mut w = OasisRecordWriter::new(vec![9, 9], [0; 4]);
    w.initialize_file().unwrap();
    assert_eq!(&w.bw[..2], &[9, 9]);
    assert_eq!(w.byte_ind, 24);
    assert_eq!(w.bw.len(), 26);
}
