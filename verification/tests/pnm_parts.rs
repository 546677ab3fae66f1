use raytracing_one_weekend_rs::pnm::{
    AsciiPbmBuf, AsciiPpmBuf, BinaryPgmBuf, BitData, EnumeratePixels, GrayData, MaxValue, Pnm,
    PnmError, PnmKind, PnmPixel, RgbData,
};

fn max_val(value: u16) -> MaxValue {
    MaxValue::new(value).unwrap()
}

fn invalid_pixel_message(e: PnmError) -> String {
    match e {
        PnmError::InvalidPixel(m) => m,
        other => panic!("expected InvalidPixel, got {:?}", other),
    }
}

const KINDS: [PnmKind; 6] = [
    PnmKind::P1,
    PnmKind::P2,
    PnmKind::P3,
    PnmKind::P4,
    PnmKind::P5,
    PnmKind::P6,
];

#[test]
fn kind_predicates() {
    assert!(PnmKind::P1.is_ascii() && PnmKind::P2.is_ascii() && PnmKind::P3.is_ascii());
    assert!(PnmKind::P4.is_binary() && PnmKind::P5.is_binary() && PnmKind::P6.is_binary());
    assert!(PnmKind::P1.is_pbm() && PnmKind::P4.is_pbm() && !PnmKind::P2.is_pbm());
    assert!(PnmKind::P2.is_pgm() && PnmKind::P5.is_pgm() && !PnmKind::P3.is_pgm());
    assert!(PnmKind::P3.is_ppm() && PnmKind::P6.is_ppm() && !PnmKind::P1.is_ppm());
}

#[test]
fn kind_partition_on_every_kind() {
    for k in KINDS {
        assert!(k.is_ascii() != k.is_binary());
        let families = [k.is_pbm(), k.is_pgm(), k.is_ppm()];
        assert_eq!(families.iter().filter(|b| **b).count(), 1);
        let expected = if k.is_pbm() {
            "pbm"
        } else if k.is_pgm() {
            "pgm"
        } else {
            "ppm"
        };
        assert_eq!(k.extension(), expected);
    }
}

#[test]
fn kind_names_read_back() {
    for k in KINDS {
        assert_eq!(PnmKind::from_name(&k.to_string()).unwrap(), k);
        assert_eq!(k.as_str().parse::<PnmKind>().unwrap(), k);
    }
    assert_eq!(PnmKind::P6.to_string(), "P6");
    assert_eq!(PnmKind::P2.as_str(), "P2");
}

#[test]
fn kind_unknown_names() {
    for name in ["P0", "P7", "p1", "P", "P11", " P1", ""] {
        match PnmKind::from_name(name) {
            Err(PnmError::UnknownKind(s)) => assert_eq!(s, name),
            other => panic!("unexpected {:?}", other),
        }
    }
}

#[test]
fn max_value_is_never_zero() {
    assert_eq!(MaxValue::new(0), None);
    assert_eq!(MaxValue::new(7).unwrap().get(), 7);
    assert_eq!(MaxValue::new(65535).unwrap().get(), 65535);
}

#[test]
fn pixels_convert_from_plain_values() {
    assert_eq!(PnmPixel::from(true), PnmPixel::Bit(true));
    assert_eq!(PnmPixel::from(200u8), PnmPixel::Gray(200));
    assert_eq!(PnmPixel::from(60000u16), PnmPixel::Gray(60000));
    assert_eq!(PnmPixel::from([1u8, 2, 3]), PnmPixel::Rgb([1, 2, 3]));
    assert_eq!(PnmPixel::from([1u16, 2, 300]), PnmPixel::Rgb([1, 2, 300]));
    assert!(PnmPixel::Gray(1) != PnmPixel::Rgb([1, 1, 1]));
}

#[test]
fn bit_data_push_and_get() {
    let mut b = BitData::new();
    assert!(b.is_empty());
    b.push(true);
    b.push(false);
    assert_eq!(b.len(), 2);
    assert_eq!(b.get(0), Some(true));
    assert_eq!(b.get(1), Some(false));
    assert_eq!(b.get(2), None);
    assert_eq!(BitData::from_bits(&[true, false]), b);
}

#[test]
fn gray_data_refusals() {
    let mut data = GrayData::U8(vec![1, 2, 3]);
    assert_eq!(
        invalid_pixel_message(data.set_pixel_at(0, 256).unwrap_err()),
        "pixel value 256 exceeds u8 range"
    );
    assert_eq!(
        invalid_pixel_message(data.set_pixel_at(3, 1).unwrap_err()),
        "pixel index 3 out of bounds"
    );
    assert_eq!(data, GrayData::U8(vec![1, 2, 3]));
    assert_eq!(data.pixel_at(3), None);
    assert_eq!(data.pixels_u16(), None);
    assert_eq!(data.as_u16_slice(), None);

    let mut wide = GrayData::U16(vec![300]);
    wide.set_pixel_at(0, 65535).unwrap();
    assert_eq!(wide.pixels_u16(), Some(vec![65535]));
    assert_eq!(wide.pixels_u8(), None);
    assert_eq!(wide.normalized_pixels().into_vec(), vec![65535]);
}

#[test]
fn rgb_data_access_and_refusals() {
    let mut data = RgbData::U8(vec![[1, 2, 3], [4, 5, 6]]);
    assert_eq!(data.len(), 2);
    assert_eq!(data.pixel_at(1), Some([4, 5, 6]));
    data.set_pixel_at(1, [255, 0, 9]).unwrap();
    assert_eq!(data.pixels_u8(), Some(vec![[1, 2, 3], [255, 0, 9]]));
    assert_eq!(
        invalid_pixel_message(data.set_pixel_at(0, [1, 256, 2]).unwrap_err()),
        "pixel value 256 exceeds u8 range"
    );
    assert_eq!(
        invalid_pixel_message(data.set_pixel_at(2, [0, 0, 0]).unwrap_err()),
        "pixel index 2 out of bounds"
    );
    assert_eq!(
        data.normalized_pixels().into_vec(),
        vec![[1, 2, 3], [255, 0, 9]]
    );
    assert_eq!(data.as_u8_slice(), Some([[1, 2, 3], [255, 0, 9]].as_slice()));

    let wide = RgbData::U16(vec![[1000, 2, 3]]);
    assert_eq!(wide.pixels_u16(), Some(vec![[1000, 2, 3]]));
    assert_eq!(wide.pixels_u8(), None);
    assert!(!wide.is_empty());
}

#[test]
fn buffer_refusals_name_the_cause() {
    let mut buf = AsciiPpmBuf::new(2, 1, max_val(100), vec![], RgbData::U8(vec![[0, 0, 0]; 2]));
    assert_eq!(
        invalid_pixel_message(buf.set_pixel(2, 0, [1, 1, 1]).unwrap_err()),
        "pixel coordinates (2, 0) out of bounds for 2x1 image"
    );
    assert_eq!(
        invalid_pixel_message(buf.set_pixel(0, 0, [1, 101, 200]).unwrap_err()),
        "pixel value 101 exceeds max value 100"
    );
    assert_eq!(buf.data, RgbData::U8(vec![[0, 0, 0]; 2]));
    buf.set_pixel(1, 0, [100, 99, 0]).unwrap();
    assert_eq!(buf.pixel(1, 0), Some([100, 99, 0]));
    assert_eq!(buf.pixel(0, 0), Some([0, 0, 0]));
}

#[test]
fn buffer_with_short_data() {
    let mut buf = BinaryPgmBuf::new(2, 2, max_val(255), vec![], GrayData::U8(vec![5]));
    assert_eq!(buf.pixel(1, 1), None);
    assert_eq!(
        invalid_pixel_message(buf.set_pixel(1, 1, 3).unwrap_err()),
        "pixel index 3 out of bounds"
    );
    assert!(buf.contains_pixel(1, 1));
    assert_eq!(buf.pixel_index(1, 1), Some(3));
    assert_eq!(buf.pixel_index(0, 2), None);
}

#[test]
fn pnm_set_pixel_refuses_pixels_of_another_kind() {
    let mut pnm = Pnm::AsciiPbm(AsciiPbmBuf::new(1, 1, (), vec![], BitData::from_bits(&[false])));
    assert_eq!(
        invalid_pixel_message(pnm.set_pixel(0, 0, PnmPixel::Gray(1)).unwrap_err()),
        "pixel kind mismatch for P1 image: Gray(1)"
    );
    assert_eq!(
        invalid_pixel_message(pnm.set_pixel(0, 0, PnmPixel::Rgb([1, 2, 3])).unwrap_err()),
        "pixel kind mismatch for P1 image: Rgb([1, 2, 3])"
    );
    pnm.set_pixel(0, 0, PnmPixel::Bit(true)).unwrap();
    assert_eq!(pnm.pixel(0, 0), Some(PnmPixel::Bit(true)));
}

#[test]
fn set_pixel_then_pixel_reads_it_back_and_leaves_the_rest() {
    let mut pnm = Pnm::BinaryPgm(BinaryPgmBuf::new(
        3,
        2,
        max_val(1000),
        vec![],
        GrayData::U16(vec![1, 2, 3, 4, 5, 6]),
    ));
    pnm.set_pixel(1, 1, PnmPixel::Gray(999)).unwrap();
    assert_eq!(pnm.pixel(1, 1), Some(PnmPixel::Gray(999)));
    assert_eq!(
        pnm.pixels().into_vec(),
        vec![
            PnmPixel::Gray(1),
            PnmPixel::Gray(2),
            PnmPixel::Gray(3),
            PnmPixel::Gray(4),
            PnmPixel::Gray(999),
            PnmPixel::Gray(6)
        ]
    );
    assert!(pnm.set_pixel(0, 0, PnmPixel::Gray(1001)).is_err());
    assert_eq!(pnm.pixel(0, 0), Some(PnmPixel::Gray(1)));
}

#[test]
fn pnm_dimensions_and_indices() {
    let pnm = Pnm::AsciiPbm(AsciiPbmBuf::new(
        3,
        2,
        (),
        vec!["x".to_string()],
        BitData::from_bits(&[true, false, true, false, true, false]),
    ));
    assert_eq!(pnm.pixel_count(), 6);
    assert_eq!(pnm.len(), 6);
    assert!(!pnm.is_empty());
    assert!(pnm.contains_pixel(2, 1));
    assert!(!pnm.contains_pixel(3, 0));
    assert_eq!(pnm.pixel_index(2, 1), Some(5));
    assert_eq!(pnm.pixel_index(0, 2), None);
    assert_eq!(pnm.extension(), "pbm");
    assert_eq!(pnm.comments().to_vec(), vec!["x".to_string()]);
}

#[test]
fn enumerate_gives_coordinates_in_row_major_order() {
    let pnm = Pnm::AsciiPbm(AsciiPbmBuf::new(
        2,
        2,
        (),
        vec![],
        BitData::from_bits(&[true, false, false, true]),
    ));
    assert_eq!(
        pnm.enumerate_pixels().into_vec(),
        vec![
            (0, 0, PnmPixel::Bit(true)),
            (1, 0, PnmPixel::Bit(false)),
            (0, 1, PnmPixel::Bit(false)),
            (1, 1, PnmPixel::Bit(true))
        ]
    );
    let mut e = EnumeratePixels::new(3, vec![7u8, 8, 9, 10]);
    assert_eq!(e.len(), 4);
    assert_eq!(e.next(), Some((0, 0, 7)));
    assert_eq!(e.next(), Some((1, 0, 8)));
    assert_eq!(e.len(), 2);
    assert_eq!(e.next(), Some((2, 0, 9)));
    assert_eq!(e.next(), Some((0, 1, 10)));
    assert_eq!(e.next(), None);
    assert_eq!(e.len(), 0);
    let mut zero = EnumeratePixels::new(0, vec![1u8, 2]);
    assert_eq!(zero.len(), 2);
    assert_eq!(zero.next(), None);
    assert_eq!(zero.len(), 2);
    assert_eq!(zero.into_vec(), vec![]);
}

#[test]
fn pixel_cursors_count_down() {
    let pnm = Pnm::AsciiPbm(AsciiPbmBuf::new(2, 1, (), vec![], BitData::from_bits(&[true, false])));
    let mut p = pnm.pixels();
    assert_eq!(p.len(), 2);
    assert_eq!(p.next(), Some(PnmPixel::Bit(true)));
    assert_eq!(p.len(), 1);
    assert_eq!(p.next(), Some(PnmPixel::Bit(false)));
    assert_eq!(p.next(), None);
    assert_eq!(p.len(), 0);

    let data = GrayData::U8(vec![4, 5]);
    let mut g = data.normalized_pixels();
    assert_eq!(g.next(), Some(4));
    assert_eq!(g.into_vec(), vec![5]);
}
