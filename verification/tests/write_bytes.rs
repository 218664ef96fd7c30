use oasis_writer::oasis_bytes::{OasisBytes, OasisType};
use oasis_writer::write_bytes::{OasisError, StringType, ToUns, WriteOasis};

#[test]
fn convert_sgn_int_to_uns_int() {
    assert_eq!(5_i8.to_uns(), 5_u8);
    assert_eq!(5_i16.to_uns(), 5_u16);
    assert_eq!(5_i32.to_uns(), 5_u32);
    assert_eq!(5_i64.to_uns(), 5_u64);
}

#[test]
fn write_u32() {
    let mut bw = Vec::<u8>::new();
    let bigger: u32 = 128;
    let result = bw.write_uns_int(u64::from(bigger));
    assert!(result.is_ok());
    assert_eq!(result.unwrap(), 2);
}

#[test]
fn write_u64() {
    let mut bw = Vec::<u8>::new();
    let bigger = 128_u64;
    let result = bw.write_uns_int(bigger);
    assert!(result.is_ok());
    assert_eq!(result.unwrap(), 2);
}

#[test]
fn write_sgn_as_uns() {
    let mut bw = Vec::<u8>::new();
    let signed_int = 4000_i32;
    let result = bw.write_uns_int(u64::from(signed_int.to_uns()));
    assert!(result.is_ok());
}

#[test]
fn write_sgn_as_uns_no_convert() {
    let mut bw = Vec::<u8>::new();
    let signed_int = 4000_i32;
    let result = bw.write_uns_int(signed_int as u64);
    assert!(result.is_ok());
}

#[test]
fn write_uns_int() {
    let mut bw = Vec::<u8>::new();
    let signed_int = 4000_i32;
    let result = bw.write_sgn_int(i64::from(signed_int));
    assert!(result.is_ok());
}

#[test]
fn write_f32() {
    let mut bw = Vec::<u8>::new();
    let num = 8000_f32;
    let result = bw.write_f32(num.to_ne_bytes());
    assert!(result.is_ok());
    assert_eq!(result.unwrap(), 5);
}

#[test]
fn write_f64() {
    let mut bw = Vec::<u8>::new();
    let num = 8000_f64;
    let result = bw.write_f64(num.to_ne_bytes());
    assert!(result.is_ok());
    assert_eq!(result.unwrap(), 9);
}

#[test]
fn write_empty_nstr() {
    let mut bw = Vec::<u8>::new();
    let s = "";
    let result = bw.write_string(s, StringType::N);
    assert!(result.is_err());
}

#[test]
fn write_nstr_with_space() {
    let mut bw = Vec::<u8>::new();
    let s = "string with spaces";
    let result = bw.write_string(s, StringType::N);
    assert!(result.is_err());
}

#[test]
fn write_nstr_with_nonprintable() {
    let mut bw = Vec::<u8>::new();
    let s = "string\nwith\nnon\nprintable";
    let result = bw.write_string(s, StringType::N);
    assert!(result.is_err());
}

#[test]
fn write_astr_with_nonprintable() {
    let mut bw = Vec::<u8>::new();
    let s = "string\nwith\nnon\nprintable";
    let result = bw.write_string(s, StringType::A);
    assert!(result.is_err());
}

#[test]
fn write_nstr() {
    let mut bw = Vec::<u8>::new();
    let s = "valid_n_string";
    let result = bw.write_string(s, StringType::N);
    assert!(result.is_ok());
    assert_eq!(result.unwrap(), 1 + s.len());
}

#[test]
fn write_astr() {
    let mut bw = Vec::<u8>::new();
    let s = "valid a-string";
    let result = bw.write_string(s, StringType::A);
    assert!(result.is_ok());
    assert_eq!(result.unwrap(), 1 + s.len());
}

// Exact encodings.

#[test]
fn uns_int_bytes_exact() {
    let mut bw = Vec::<u8>::new();
    assert_eq!(bw.write_uns_int(0), Ok(1));
    assert_eq!(bw.write_uns_int(127), Ok(1));
    assert_eq!(bw.write_uns_int(128), Ok(2));
    assert_eq!(bw.write_uns_int(16384), Ok(3));
    assert_eq!(bw, vec![0x00, 0x7f, 0x80, 0x01, 0x80, 0x80, 0x01]);
}

#[test]
fn uns_int_largest_takes_ten_bytes() {
    let mut bw = Vec::<u8>::new();
    assert_eq!(bw.write_uns_int(u64::MAX), Ok(10));
    assert_eq!(bw, vec![0xff, 0xff, 0xff, 0xff, 0xff, 0xff, 0xff, 0xff, 0xff, 0x01]);
}

#[test]
fn uns_int_appends_after_existing_bytes() {
    let mut bw = vec![0xaa_u8, 0xbb];
    assert_eq!(bw.write_uns_int(300), Ok(2));
    assert_eq!(bw, vec![0xaa, 0xbb, 0xac, 0x02]);
}

#[test]
fn uns_int_reads_back() {
    // Each byte's low seven bits, least significant group first.
    for n in [0_u64, 1, 127, 128, 4000, 1 << 35, u64::MAX] {
        let mut bw = Vec::<u8>::new();
        let len = bw.write_uns_int(n).unwrap();
        assert_eq!(len, bw.len());
        let mut value: u128 = 0;
        for (i, b) in bw.iter().enumerate() {
            value += u128::from(b & 0x7f) << (7 * i);
            assert_eq!(b & 0x80 != 0, i + 1 < bw.len());
        }
        assert_eq!(value, u128::from(n));
    }
}

#[test]
fn sgn_int_bytes_exact() {
    let mut bw = Vec::<u8>::new();
    assert_eq!(bw.write_sgn_int(0), Ok(1));
    assert_eq!(bw.write_sgn_int(5), Ok(1));
    assert_eq!(bw.write_sgn_int(63), Ok(1));
    assert_eq!(bw.write_sgn_int(64), Ok(2));
    assert_eq!(bw.write_sgn_int(4000), Ok(2));
    assert_eq!(bw, vec![0x00, 0x0a, 0x7e, 0x80, 0x01, 0xc0, 0x3e]);
}

#[test]
fn to_uns_reinterprets_negatives() {
    assert_eq!((-1_i8).to_uns(), 255_u8);
    assert_eq!((-2_i16).to_uns(), 65534_u16);
    assert_eq!(i32::MIN.to_uns(), 0x8000_0000_u32);
    assert_eq!((-1_i64).to_uns(), u64::MAX);
}

#[test]
fn f32_bytes_exact() {
    let mut bw = Vec::<u8>::new();
    let bytes = 8000_f32.to_ne_bytes();
    assert_eq!(bw.write_f32(bytes), Ok(5));
    assert_eq!(bw[0], 6);
    assert_eq!(&bw[1..], &bytes[..]);
}

#[test]
fn f64_bytes_exact() {
    let mut bw = Vec::<u8>::new();
    let bytes = 0.5_f64.to_ne_bytes();
    assert_eq!(bw.write_f64(bytes), Ok(9));
    assert_eq!(bw[0], 7);
    assert_eq!(&bw[1..], &bytes[..]);
}

#[test]
fn string_bytes_exact() {
    let mut bw = Vec::<u8>::new();
    assert_eq!(bw.write_string("ab c", StringType::A), Ok(5));
    assert_eq!(bw, vec![4, b'a', b'b', b' ', b'c']);
}

#[test]
fn bstring_accepts_any_bytes() {
    let mut bw = Vec::<u8>::new();
    assert_eq!(bw.write_string("a\nb", StringType::B), Ok(4));
    assert_eq!(bw.write_string("", StringType::B), Ok(1));
    assert_eq!(bw, vec![3, b'a', b'\n', b'b', 0]);
}

#[test]
fn long_string_gets_two_byte_length() {
    let mut bw = Vec::<u8>::new();
    let s = "x".repeat(200);
    assert_eq!(bw.write_string(&s, StringType::N), Ok(202));
    assert_eq!(&bw[..2], &[0xc8, 0x01]);
    assert_eq!(bw.len(), 202);
}

#[test]
fn string_errors_and_what_they_leave() {
    let mut bw = Vec::<u8>::new();
    assert_eq!(bw.write_string("", StringType::N), Err(OasisError::EmptyNString));
    assert!(bw.is_empty());

    assert_eq!(bw.write_string("a b", StringType::N), Err(OasisError::SpaceInNString));
    assert_eq!(bw, vec![3]);

    let mut bw = Vec::<u8>::new();
    assert_eq!(bw.write_string("a\tb", StringType::N), Err(OasisError::NonPrintable));
    assert_eq!(bw, vec![3]);

    let mut bw = Vec::<u8>::new();
    assert_eq!(bw.write_string("del\u{7f}", StringType::A), Err(OasisError::NonPrintable));
    assert_eq!(bw, vec![4]);

    let mut bw = Vec::<u8>::new();
    assert_eq!(bw.write_string("caf\u{e9}", StringType::A), Err(OasisError::NonPrintable));
    assert_eq!(bw, vec![5]);
}

#[test]
fn space_is_checked_before_printability() {
    let mut bw = Vec::<u8>::new();
    assert_eq!(bw.write_string("a \n", StringType::N), Err(OasisError::SpaceInNString));
}

#[test]
fn empty_astring_is_valid() {
    let mut bw = Vec::<u8>::new();
    assert_eq!(bw.write_string("", StringType::A), Ok(1));
    assert_eq!(bw, vec![0]);
}

#[test]
fn info_byte_bits() {
    let mut bw = Vec::<u8>::new();
    assert_eq!(bw.write_info_byte(false, true, true, true, true, false, true, true), Ok(1));
    assert_eq!(bw.write_info_byte(true, false, false, false, false, false, false, false), Ok(1));
    assert_eq!(bw.write_info_byte(false, false, false, false, false, false, false, true), Ok(1));
    assert_eq!(bw, vec![0x7b, 0x80, 0x01]);
}

#[test]
fn magic_bytes_exact() {
    let mut bw = Vec::<u8>::new();
    assert_eq!(bw.write_magic_bytes(&OasisType::STANDARD), Ok(13));
    assert_eq!(bw, b"%SEMI-OASIS\r\n".to_vec());
    let mut bw = Vec::<u8>::new();
    assert_eq!(bw.write_magic_bytes(&OasisType::CURVILINEAR), Ok(25));
    assert_eq!(bw, OasisBytes::CURVI_MAGIC_BYTES.as_bytes().to_vec());
}

#[test]
fn start_record_exact() {
    let mut bw = Vec::<u8>::new();
    let p = 8000_f32.to_ne_bytes();
    assert_eq!(bw.write_start_record(&p), Ok(11));
    let mut expected = vec![1, 3, b'1', b'.', b'0', 6];
    expected.extend_from_slice(&p);
    expected.push(1);
    assert_eq!(bw, expected);
}
