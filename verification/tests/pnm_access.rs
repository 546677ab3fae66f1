use raytracing_one_weekend_rs::pnm::{
    AsciiPgmBuf, AsciiPpmBuf, BinaryPpmBuf, GrayData, MaxValue, Pnm, PnmPixel, RgbData,
};

fn max_val(value: u16) -> MaxValue {
    MaxValue::new(value).unwrap()
}

#[test]
fn gray_data_access_normalizes_to_u16() {
    let mut data = GrayData::U8(vec![1, 2, 3]);

    assert_eq!(data.pixel_at(1), Some(2));
    assert_eq!(data.pixels_u8().unwrap(), vec![1, 2, 3]);
    assert_eq!(data.normalized_pixels().into_vec(), vec![1, 2, 3]);

    data.set_pixel_at(0, 255).unwrap();
    assert_eq!(data.as_u8_slice(), Some([255, 2, 3].as_slice()));
    assert!(data.set_pixel_at(0, 256).is_err());
}

#[test]
fn pnm_buf_accesses_pixels_by_coordinates() {
    let mut buf = AsciiPgmBuf::new(2, 2, max_val(10), vec![], GrayData::U8(vec![0, 1, 2, 3]));

    assert_eq!(buf.pixel_count(), 4);
    assert_eq!(buf.len(), 4);
    assert_eq!(buf.pixel_index(1, 1), Some(3));
    assert_eq!(buf.pixel(1, 1), Some(3));
    assert_eq!(buf.pixel(2, 0), None);
    assert_eq!(
        buf.enumerate_gray_pixels_u8().unwrap().into_vec(),
        vec![(0, 0, 0), (1, 0, 1), (0, 1, 2), (1, 1, 3)]
    );

    buf.set_pixel(0, 1, 9).unwrap();
    assert_eq!(buf.pixel(0, 1), Some(9));
    assert!(buf.set_pixel(1, 1, 11).is_err());
    assert!(buf.set_pixel(2, 0, 1).is_err());
}

#[test]
fn pnm_enum_accesses_pixels_across_formats() {
    let mut pnm = Pnm::BinaryPpm(BinaryPpmBuf::new(
        2,
        1,
        max_val(255),
        vec![],
        RgbData::U8(vec![[1, 2, 3], [4, 5, 6]]),
    ));

    assert_eq!(pnm.max_val(), Some(max_val(255)));
    assert_eq!(pnm.pixel(1, 0), Some(PnmPixel::Rgb([4, 5, 6])));
    assert_eq!(
        pnm.pixels().into_vec(),
        vec![PnmPixel::Rgb([1, 2, 3]), PnmPixel::Rgb([4, 5, 6])]
    );

    pnm.set_pixel(0, 0, [7u16, 8, 9]).unwrap();
    assert_eq!(pnm.pixel(0, 0), Some(PnmPixel::Rgb([7, 8, 9])));
    assert!(pnm.set_pixel(0, 0, 1u16).is_err());
    assert!(pnm.set_pixel(0, 0, [256u16, 0, 0]).is_err());
}

#[test]
fn pnm_max_val_is_available_for_pgm_and_ppm() {
    let pgm = Pnm::AsciiPgm(AsciiPgmBuf::new(
        1,
        1,
        max_val(31),
        vec![],
        GrayData::U8(vec![0]),
    ));
    let ppm = Pnm::AsciiPpm(AsciiPpmBuf::new(
        1,
        1,
        max_val(63),
        vec![],
        RgbData::U8(vec![[0, 0, 0]]),
    ));

    assert_eq!(pgm.max_val(), Some(max_val(31)));
    assert_eq!(ppm.max_val(), Some(max_val(63)));
}
