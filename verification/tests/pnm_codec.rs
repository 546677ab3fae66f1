use raytracing_one_weekend_rs::pnm::{
    AsciiPbmBuf, AsciiPgmBuf, AsciiPpmBuf, BinaryPbmBuf, BinaryPgmBuf, BinaryPpmBuf, BitData,
    EofAt, GrayData, MaxValue, Pnm, PnmError, PnmKind, PnmPixel, RgbData,
};

fn max_val(value: u16) -> MaxValue {
    MaxValue::new(value).unwrap()
}

fn bits(values: &[u8]) -> BitData {
    let v: Vec<bool> = values.iter().map(|b| *b == 1).collect();
    BitData::from_bits(&v)
}

fn encode(pnm: &Pnm) -> Vec<u8> {
    assert!(pnm.is_writable());
    let mut out = Vec::new();
    pnm.write(&mut out).unwrap();
    out
}

fn read(input: &[u8]) -> Result<Pnm, PnmError> {
    assert!(Pnm::readable(input));
    Pnm::from_reader(input)
}

fn read_err(input: &[u8]) -> PnmError {
    match read(input) {
        Ok(_) => panic!("expected an error"),
        Err(e) => e,
    }
}

fn invalid_pixel_message(e: PnmError) -> String {
    match e {
        PnmError::InvalidPixel(m) => m,
        other => panic!("expected InvalidPixel, got {:?}", other),
    }
}

// ---- writing ----

#[test]
fn write_ascii_pbm_separates_rows_with_newlines() {
    let pnm = Pnm::AsciiPbm(AsciiPbmBuf::new(2, 2, (), vec![], bits(&[1, 0, 0, 1])));
    assert_eq!(encode(&pnm), b"P1\n2 2\n\n1 0\n0 1\n".to_vec());
    assert_eq!(pnm.to_string(), "P1\n2 2\n\n1 0\n0 1\n");
}

#[test]
fn write_puts_each_comment_on_its_own_line() {
    let pnm = Pnm::AsciiPbm(AsciiPbmBuf::new(
        1,
        1,
        (),
        vec!["hello".to_string(), "world".to_string()],
        bits(&[1]),
    ));
    assert_eq!(encode(&pnm), b"P1\n# hello\n# world\n1 1\n\n1\n".to_vec());
}

#[test]
fn write_ascii_pgm_ends_each_value_with_a_space() {
    let pnm = Pnm::AsciiPgm(AsciiPgmBuf::new(
        2,
        2,
        max_val(255),
        vec![],
        GrayData::U8(vec![1, 2, 30, 255]),
    ));
    assert_eq!(encode(&pnm), b"P2\n2 2\n 255\n\n1 2 \n30 255 \n".to_vec());
}

#[test]
fn write_ascii_pgm_16_bit() {
    let pnm = Pnm::AsciiPgm(AsciiPgmBuf::new(
        1,
        1,
        max_val(1000),
        vec![],
        GrayData::U16(vec![999]),
    ));
    assert_eq!(pnm.to_string(), "P2\n1 1\n 1000\n\n999 \n");
}

#[test]
fn write_ascii_ppm_one_row_per_line() {
    let pnm = Pnm::AsciiPpm(AsciiPpmBuf::new(
        2,
        2,
        max_val(255),
        vec![],
        RgbData::U8(vec![[1, 2, 3], [4, 5, 6], [7, 8, 9], [10, 11, 12]]),
    ));
    assert_eq!(
        encode(&pnm),
        b"P3\n2 2\n 255\n1 2 3 4 5 6\n7 8 9 10 11 12\n".to_vec()
    );
}

#[test]
fn write_binary_pbm_pads_each_row() {
    let pnm = Pnm::BinaryPbm(BinaryPbmBuf::new(3, 2, (), vec![], bits(&[1, 0, 1, 0, 1, 1])));
    let mut expected = b"P4\n3 2\n\n".to_vec();
    expected.extend_from_slice(&[0xA0, 0x60]);
    assert_eq!(encode(&pnm), expected);
}

#[test]
fn write_binary_pbm_nine_bits_a_row() {
    let pnm = Pnm::BinaryPbm(BinaryPbmBuf::new(
        9,
        1,
        (),
        vec![],
        bits(&[1, 1, 1, 1, 0, 0, 0, 1, 1]),
    ));
    let mut expected = b"P4\n9 1\n\n".to_vec();
    expected.extend_from_slice(&[0xF1, 0x80]);
    assert_eq!(encode(&pnm), expected);
}

#[test]
fn write_binary_pgm_8_bit_writes_raw_bytes() {
    let pnm = Pnm::BinaryPgm(BinaryPgmBuf::new(
        2,
        1,
        max_val(255),
        vec![],
        GrayData::U8(vec![7, 200]),
    ));
    let mut expected = b"P5\n2 1\n 255\n".to_vec();
    expected.extend_from_slice(&[7, 200]);
    assert_eq!(encode(&pnm), expected);
}

#[test]
fn write_binary_pgm_16_bit_is_big_endian() {
    let pnm = Pnm::BinaryPgm(BinaryPgmBuf::new(
        2,
        1,
        max_val(65535),
        vec![],
        GrayData::U16(vec![0x0102, 0xABCD]),
    ));
    let mut expected = b"P5\n2 1\n 65535\n".to_vec();
    expected.extend_from_slice(&[0x01, 0x02, 0xAB, 0xCD]);
    assert_eq!(encode(&pnm), expected);
}

#[test]
fn write_binary_ppm_8_bit_writes_raw_bytes() {
    let pnm = Pnm::BinaryPpm(BinaryPpmBuf::new(
        2,
        1,
        max_val(255),
        vec![],
        RgbData::U8(vec![[1, 2, 3], [250, 251, 252]]),
    ));
    let mut expected = b"P6\n2 1\n 255\n".to_vec();
    expected.extend_from_slice(&[1, 2, 3, 250, 251, 252]);
    assert_eq!(encode(&pnm), expected);
}

#[test]
fn write_binary_ppm_16_bit_in_machine_byte_order() {
    let pnm = Pnm::BinaryPpm(BinaryPpmBuf::new(
        1,
        1,
        max_val(4095),
        vec![],
        RgbData::U16(vec![[0x0102, 0x0304, 0x0506]]),
    ));
    let mut expected = b"P6\n1 1\n 4095\n".to_vec();
    expected.extend_from_slice(&0x0102u16.to_ne_bytes());
    expected.extend_from_slice(&0x0304u16.to_ne_bytes());
    expected.extend_from_slice(&0x0506u16.to_ne_bytes());
    assert_eq!(encode(&pnm), expected);
}

#[test]
fn write_max_val_lines() {
    let pgm = Pnm::AsciiPgm(AsciiPgmBuf::new(1, 1, max_val(31), vec![], GrayData::U8(vec![0])));
    let mut out = Vec::new();
    pgm.write_max_val(&mut out).unwrap();
    assert_eq!(out, b" 31".to_vec());
    pgm.writeln_max_val(&mut out).unwrap();
    assert_eq!(out, b" 31 31\n".to_vec());

    let pbm = Pnm::AsciiPbm(AsciiPbmBuf::new(1, 1, (), vec![], bits(&[0])));
    let mut out = Vec::new();
    pbm.writeln_max_val(&mut out).unwrap();
    assert_eq!(out, b"\n".to_vec());
}

#[test]
fn is_writable_checks_the_data_length() {
    let short = Pnm::AsciiPbm(AsciiPbmBuf::new(2, 2, (), vec![], bits(&[1, 0, 1])));
    assert!(!short.is_writable());
    let ppm = Pnm::BinaryPpm(BinaryPpmBuf::new(
        2,
        1,
        max_val(255),
        vec![],
        RgbData::U8(vec![[0, 0, 0]]),
    ));
    assert!(!ppm.is_writable());
    let pgm = Pnm::BinaryPgm(BinaryPgmBuf::new(5, 5, max_val(255), vec![], GrayData::U8(vec![])));
    assert!(pgm.is_writable());
}

// ---- reading ----

#[test]
fn read_ascii_pbm() {
    let pnm = read(b"P1\n2 2\n1 0\n0 1\n").unwrap();
    assert_eq!(pnm.kind(), PnmKind::P1);
    assert_eq!(pnm.width(), 2);
    assert_eq!(pnm.height(), 2);
    assert_eq!(pnm.max_val(), None);
    assert_eq!(
        pnm.pixels().into_vec(),
        vec![
            PnmPixel::Bit(true),
            PnmPixel::Bit(false),
            PnmPixel::Bit(false),
            PnmPixel::Bit(true)
        ]
    );
}

#[test]
fn read_collects_trimmed_comments_from_the_header() {
    let pnm = read(b"  # first  \nP2\n#second\n2 1\n\n#   third\n 255 \n1 2\n").unwrap();
    assert_eq!(
        pnm.comments().to_vec(),
        vec!["first".to_string(), "second".to_string(), "third".to_string()]
    );
    assert_eq!(pnm.max_val(), Some(max_val(255)));
    assert_eq!(pnm.pixels().into_vec(), vec![PnmPixel::Gray(1), PnmPixel::Gray(2)]);
}

#[test]
fn read_ascii_pgm_keeps_8_bit_storage_for_small_maximum() {
    let pnm = read(b"P2\n3 1\n200\n1 2\r\n3\n").unwrap();
    match pnm {
        Pnm::AsciiPgm(buf) => assert_eq!(buf.data, GrayData::U8(vec![1, 2, 3])),
        _ => panic!("expected an ASCII graymap"),
    }
}

#[test]
fn read_ascii_pgm_wide_maximum_gives_16_bit_storage() {
    let pnm = read(b"P2\n2 1\n1000\n999 1000\n").unwrap();
    match pnm {
        Pnm::AsciiPgm(buf) => assert_eq!(buf.data, GrayData::U16(vec![999, 1000])),
        _ => panic!("expected an ASCII graymap"),
    }
}

#[test]
fn read_skips_max_value_lines_that_are_no_positive_number() {
    let pnm = read(b"P2\n1 1\n0\nabc\n255\n5\n").unwrap();
    assert_eq!(pnm.max_val(), Some(max_val(255)));
    assert_eq!(pnm.pixel(0, 0), Some(PnmPixel::Gray(5)));
}

#[test]
fn read_ascii_pgm_value_too_large_for_8_bits_is_a_parse_error() {
    assert!(matches!(read_err(b"P2\n1 1\n255\n300\n"), PnmError::ParseError(_)));
}

#[test]
fn read_ascii_pgm_with_too_few_values() {
    let e = read_err(b"P2\n2 1\n255\n1\n");
    assert_eq!(invalid_pixel_message(e), "data length mismatch: expected 2, got 1");
}

#[test]
fn read_ascii_pbm_refuses_comments_in_data() {
    assert!(matches!(read_err(b"P1\n1 1\n# x\n1\n"), PnmError::CommentInData));
}

#[test]
fn read_ascii_pbm_refuses_other_tokens() {
    let e = read_err(b"P1\n2 1\n1 2\n");
    assert_eq!(invalid_pixel_message(e), "2");
}

#[test]
fn read_ascii_pbm_with_too_few_bits() {
    let e = read_err(b"P1\n2 1\n1\n");
    assert_eq!(invalid_pixel_message(e), "data length mismatch");
}

#[test]
fn read_unknown_kind() {
    match read_err(b"P7\n1 1\n") {
        PnmError::UnknownKind(s) => assert_eq!(s, "P7"),
        other => panic!("unexpected {:?}", other),
    }
}

#[test]
fn read_empty_input_ends_before_the_kind() {
    assert!(matches!(read_err(b""), PnmError::UnexpectedEof(EofAt::Kind)));
    assert!(matches!(read_err(b"# only a comment\n\n"), PnmError::UnexpectedEof(EofAt::Kind)));
}

#[test]
fn read_ends_before_the_size() {
    assert!(matches!(read_err(b"P1\n"), PnmError::UnexpectedEof(EofAt::Size)));
}

#[test]
fn read_ends_before_the_max_value() {
    assert!(matches!(read_err(b"P2\n1 1\n"), PnmError::UnexpectedEof(EofAt::MaxVal)));
}

#[test]
fn read_invalid_size_line() {
    match read_err(b"P1\n 1 x \n") {
        PnmError::InvalidHeader(s) => assert_eq!(s, "invalid size: 1 x"),
        other => panic!("unexpected {:?}", other),
    }
    match read_err(b"P1\n1 2 3\n") {
        PnmError::InvalidHeader(s) => assert_eq!(s, "invalid size: 1 2 3"),
        other => panic!("unexpected {:?}", other),
    }
}

#[test]
fn read_header_line_that_is_not_utf8_is_an_io_error() {
    assert!(matches!(read_err(b"P1\n\xff\xfe\n"), PnmError::Io(_)));
}

#[test]
fn read_binary_pbm_reads_each_row_from_its_own_bytes() {
    let mut input = b"P4\n3 2\n".to_vec();
    input.extend_from_slice(&[0xA0, 0x60]);
    let pnm = read(&input).unwrap();
    assert_eq!(pnm.kind(), PnmKind::P4);
    assert_eq!(
        pnm.pixels().into_vec(),
        vec![
            PnmPixel::Bit(true),
            PnmPixel::Bit(false),
            PnmPixel::Bit(true),
            PnmPixel::Bit(false),
            PnmPixel::Bit(true),
            PnmPixel::Bit(true)
        ]
    );
}

#[test]
fn read_binary_pbm_passes_over_row_padding() {
    let mut input = b"P4\n3 2\n".to_vec();
    input.extend_from_slice(&[0x00, 0xE0]);
    let pnm = read(&input).unwrap();
    assert_eq!(
        pnm.pixels().into_vec(),
        vec![
            PnmPixel::Bit(false),
            PnmPixel::Bit(false),
            PnmPixel::Bit(false),
            PnmPixel::Bit(true),
            PnmPixel::Bit(true),
            PnmPixel::Bit(true)
        ]
    );
}

#[test]
fn read_binary_pbm_cut_short_is_an_io_error() {
    let mut input = b"P4\n8 2\n".to_vec();
    input.push(0xFF);
    assert!(matches!(read_err(&input), PnmError::Io(_)));
}

#[test]
fn read_binary_pgm_8_bit() {
    let mut input = b"P5\n2 1\n255\n".to_vec();
    input.extend_from_slice(&[7, 200]);
    match read(&input).unwrap() {
        Pnm::BinaryPgm(buf) => assert_eq!(buf.data, GrayData::U8(vec![7, 200])),
        _ => panic!("expected a binary graymap"),
    }
}

#[test]
fn read_binary_pgm_with_extra_bytes() {
    let mut input = b"P5\n2 1\n255\n".to_vec();
    input.extend_from_slice(&[7, 200, 9]);
    let e = read_err(&input);
    assert_eq!(invalid_pixel_message(e), "data length mismatch: expected 2, got 3");
}

#[test]
fn read_binary_pgm_16_bit_is_big_endian() {
    let mut input = b"P5\n2 1\n65535\n".to_vec();
    input.extend_from_slice(&[0x01, 0x02, 0xFF, 0xFF]);
    match read(&input).unwrap() {
        Pnm::BinaryPgm(buf) => assert_eq!(buf.data, GrayData::U16(vec![0x0102, 0xFFFF])),
        _ => panic!("expected a binary graymap"),
    }
}

#[test]
fn read_binary_pgm_16_bit_length_errors() {
    let mut input = b"P5\n2 1\n1000\n".to_vec();
    input.extend_from_slice(&[1, 2]);
    let e = read_err(&input);
    assert_eq!(invalid_pixel_message(e), "data length mismatch: expected 2, got 1");
    let mut odd = b"P5\n1 1\n1000\n".to_vec();
    odd.extend_from_slice(&[1, 2, 3]);
    assert!(matches!(read_err(&odd), PnmError::Io(_)));
}

#[test]
fn read_binary_ppm_8_bit() {
    let mut input = b"P6\n1 2\n255\n".to_vec();
    input.extend_from_slice(&[1, 2, 3, 4, 5, 6, 7]);
    match read(&input).unwrap() {
        Pnm::BinaryPpm(buf) => assert_eq!(buf.data, RgbData::U8(vec![[1, 2, 3], [4, 5, 6]])),
        _ => panic!("expected a binary pixmap"),
    }
}

#[test]
fn read_binary_ppm_cut_short_is_an_io_error() {
    let mut input = b"P6\n1 1\n255\n".to_vec();
    input.extend_from_slice(&[1, 2]);
    assert!(matches!(read_err(&input), PnmError::Io(_)));
}

#[test]
fn read_ascii_ppm_reads_decimal_samples() {
    match read(b"P3\n2 1\n255\n1 2 3\n4 5 6\n").unwrap() {
        Pnm::AsciiPpm(buf) => assert_eq!(buf.data, RgbData::U8(vec![[1, 2, 3], [4, 5, 6]])),
        _ => panic!("expected an ASCII pixmap"),
    }
}

#[test]
fn readable_refuses_sizes_that_cannot_be_allocated() {
    assert!(Pnm::readable(b"P1\n2 2\n1 0 0 1\n"));
    assert!(!Pnm::readable(b"P2\n18446744073709551615 2\n255\n"));
    assert!(!Pnm::readable(b"P6\n4294967296 4294967296\n255\n"));
    assert!(Pnm::readable(b"P9\n"));
}

// ---- writing, then reading back ----

#[test]
fn ascii_pbm_reads_back_what_was_written() {
    let pnm = Pnm::AsciiPbm(AsciiPbmBuf::new(
        3,
        2,
        (),
        vec!["made here".to_string()],
        bits(&[1, 0, 1, 1, 1, 0]),
    ));
    let back = read(&encode(&pnm)).unwrap();
    assert_eq!(back.kind(), PnmKind::P1);
    assert_eq!(back.comments().to_vec(), vec!["made here".to_string()]);
    assert_eq!(back.width(), 3);
    assert_eq!(back.height(), 2);
    assert_eq!(back.pixels().into_vec(), pnm.pixels().into_vec());
}

#[test]
fn ascii_pgm_reads_back_what_was_written() {
    let pnm = Pnm::AsciiPgm(AsciiPgmBuf::new(
        2,
        2,
        max_val(65535),
        vec![],
        GrayData::U16(vec![0, 65535, 256, 7]),
    ));
    match read(&encode(&pnm)).unwrap() {
        Pnm::AsciiPgm(buf) => {
            assert_eq!(buf.max_val, max_val(65535));
            assert_eq!(buf.data, GrayData::U16(vec![0, 65535, 256, 7]));
        },
        _ => panic!("expected an ASCII graymap"),
    }
}

#[test]
fn binary_pgm_and_ppm_read_back_what_was_written() {
    let pgm = Pnm::BinaryPgm(BinaryPgmBuf::new(
        2,
        1,
        max_val(255),
        vec![],
        GrayData::U8(vec![10, 20]),
    ));
    match read(&encode(&pgm)).unwrap() {
        Pnm::BinaryPgm(buf) => assert_eq!(buf.data, GrayData::U8(vec![10, 20])),
        _ => panic!("expected a binary graymap"),
    }
    let ppm = Pnm::BinaryPpm(BinaryPpmBuf::new(
        1,
        1,
        max_val(255),
        vec!["c".to_string()],
        RgbData::U8(vec![[10, 13, 32]]),
    ));
    match read(&encode(&ppm)).unwrap() {
        Pnm::BinaryPpm(buf) => {
            assert_eq!(buf.comments, vec!["c".to_string()]);
            assert_eq!(buf.data, RgbData::U8(vec![[10, 13, 32]]));
        },
        _ => panic!("expected a binary pixmap"),
    }
}

#[test]
fn read_ascii_ppm_16_bit_reads_decimal_samples() {
    match read(b"P3\n1 1\n1000\n999 0\n  1000\n").unwrap() {
        Pnm::AsciiPpm(buf) => assert_eq!(buf.data, RgbData::U16(vec![[999, 0, 1000]])),
        _ => panic!("expected an ASCII pixmap"),
    }
}

#[test]
fn read_ascii_ppm_errors() {
    let e = read_err(b"P3\n1 1\n255\n1 2\n");
    assert_eq!(invalid_pixel_message(e), "data length mismatch: expected 3, got 2");
    assert!(matches!(read_err(b"P3\n1 1\n255\n1 2 256\n"), PnmError::ParseError(_)));
    assert!(matches!(read_err(b"P3\n1 1\n255\n# c\n1 2 3\n"), PnmError::CommentInData));
}

#[test]
fn read_ascii_pgm_refuses_comments_in_data() {
    assert!(matches!(read_err(b"P2\n1 1\n255\n  # c\n1\n"), PnmError::CommentInData));
}

#[test]
fn read_binary_ppm_16_bit_is_big_endian() {
    match read(b"P6\n0 3\n4000\n").unwrap() {
        Pnm::BinaryPpm(buf) => assert_eq!(buf.data, RgbData::U16(vec![])),
        _ => panic!("expected a binary pixmap"),
    }
    match read(b"P6\n1 1\n4000\n\x01\x02\x03\x04\x05\x06\x07").unwrap() {
        Pnm::BinaryPpm(buf) => assert_eq!(buf.data, RgbData::U16(vec![[0x0102, 0x0304, 0x0506]])),
        _ => panic!("expected a binary pixmap"),
    }
    assert!(matches!(read_err(b"P6\n1 1\n4000\n\x01\x02\x03"), PnmError::Io(_)));
}

#[test]
fn ascii_ppm_and_16_bit_pgm_read_back_what_was_written() {
    let ppm = Pnm::AsciiPpm(AsciiPpmBuf::new(
        2,
        2,
        max_val(255),
        vec!["rgb".to_string()],
        RgbData::U8(vec![[1, 2, 3], [4, 5, 6], [7, 8, 9], [255, 0, 10]]),
    ));
    match read(&encode(&ppm)).unwrap() {
        Pnm::AsciiPpm(buf) => {
            assert_eq!(buf.comments, vec!["rgb".to_string()]);
            assert_eq!(buf.data, RgbData::U8(vec![[1, 2, 3], [4, 5, 6], [7, 8, 9], [255, 0, 10]]));
        },
        _ => panic!("expected an ASCII pixmap"),
    }
    let pgm = Pnm::BinaryPgm(BinaryPgmBuf::new(
        2,
        1,
        max_val(65535),
        vec![],
        GrayData::U16(vec![0x0102, 65535]),
    ));
    match read(&encode(&pgm)).unwrap() {
        Pnm::BinaryPgm(buf) => assert_eq!(buf.data, GrayData::U16(vec![0x0102, 65535])),
        _ => panic!("expected a binary graymap"),
    }
}

#[test]
fn write_binary_ppm_16_bit_uses_one_byte_order_for_all_colors() {
    let pnm = Pnm::BinaryPpm(BinaryPpmBuf::new(
        2,
        1,
        max_val(65535),
        vec![],
        RgbData::U16(vec![[0x0102, 0x0304, 0x0506], [0xA0B0, 0xC0D0, 0xE0F0]]),
    ));
    let mut expected = b"P6\n2 1\n 65535\n".to_vec();
    for v in [0x0102u16, 0x0304, 0x0506, 0xA0B0, 0xC0D0, 0xE0F0] {
        expected.extend_from_slice(&v.to_ne_bytes());
    }
    assert_eq!(encode(&pnm), expected);
}
