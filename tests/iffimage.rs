use png2iff::convert::{
    bitplane_count, from_decoded, ColorType, DecodedPng, IffConvertError, IffLoadError,
};
use png2iff::image::{BitmapHeader, Color, ColorMap, IffImage};

fn header(width: u16, height: u16, bitplanes: u8) -> BitmapHeader {
    BitmapHeader {
        width,
        height,
        x: 0,
        y: 0,
        bitplanes,
        masking: 0,
        compression: 0,
        pad1: 0,
        transparent_color: 0,
        x_aspect: 0,
        y_aspect: 0,
        page_width: 0,
        page_height: 0,
    }
}

fn image(width: u16, height: u16, bitplanes: u8, colors: Vec<Color>, pixels: Vec<u8>) -> IffImage {
    IffImage {
        bmhd: header(width, height, bitplanes),
        cmap: ColorMap { colors },
        pixels,
    }
}

fn grey(v: u8) -> Color {
    Color { r: v, g: v, b: v }
}

fn indexed(width: u32, height: u32, palette: Vec<u8>, pixels: Vec<u8>) -> DecodedPng {
    DecodedPng {
        width,
        height,
        color_type: ColorType::Indexed,
        palette: Some(palette),
        pixels,
    }
}

#[test]
fn one_bitplanes_body() {
    let image = image(8, 1, 1, vec![Color { r: 0, g: 0, b: 0 }, Color { r: 0xff, g: 0xff, b: 0xff }], vec![0, 1, 0, 1, 0, 1, 0, 1]);
    let body = image.get_body();
    assert_eq!(body.len(), 1);
    assert_eq!(body[0], 0b1010101);
}

#[test]
fn two_bitplanes_body() {
    let image = image(8, 1, 2, vec![grey(0), grey(0), grey(0)], vec![0, 1, 2, 2, 1, 0, 0, 1]);
    let body = image.get_body();
    assert_eq!(body.len(), 2);
    assert_eq!(body[0], 0b01001001);
    assert_eq!(body[1], 0b00110000);
}

#[test]
fn body_is_row_interleaved() {
    // 16x2, two planes: row 0 plane 0, row 0 plane 1, row 1 plane 0, row 1 plane 1.
    let mut pixels = vec![0u8; 32];
    pixels[0] = 1; // row 0, plane 0, first byte, top bit
    pixels[15] = 2; // row 0, plane 1, second byte, low bit
    pixels[16] = 3; // row 1, both planes, first byte, top bit
    let img = image(16, 2, 2, vec![grey(0), grey(1), grey(2), grey(3)], pixels);
    let body = img.get_body();
    assert_eq!(body, vec![0x80, 0x00, 0x00, 0x01, 0x80, 0x00, 0x80, 0x00]);
}

#[test]
fn body_length_formula() {
    let img = image(24, 3, 3, (0..5).map(grey).collect(), vec![4; 72]);
    assert_eq!(img.get_body().len(), 3 * 3 * (24 / 8));
    assert_eq!(img.get_body(), vec![0, 0, 0, 0, 0, 0, 0xff, 0xff, 0xff].repeat(3));
}

#[test]
fn single_color_has_empty_body() {
    let img = image(8, 2, 0, vec![grey(7)], vec![0; 16]);
    assert!(img.get_body().is_empty());
}

#[test]
fn header_bytes_big_endian() {
    let mut h = header(0x0140, 0x00c8, 5);
    h.x = -2;
    h.transparent_color = 0x0102;
    h.x_aspect = 10;
    h.y_aspect = 11;
    h.page_width = 0x0140;
    h.page_height = 0x00c8;
    let img = IffImage { bmhd: h, cmap: ColorMap { colors: vec![] }, pixels: vec![] };
    let b = img.get_bmhd();
    assert_eq!(
        b,
        vec![0x01, 0x40, 0x00, 0xc8, 0xff, 0xfe, 0, 0, 5, 0, 0, 0, 0x01, 0x02, 10, 11, 0x01, 0x40, 0x00, 0xc8]
    );
    assert_eq!(u16::from_be_bytes([b[0], b[1]]), 0x0140);
    assert_eq!(i16::from_be_bytes([b[4], b[5]]), -2);
}

#[test]
fn cmap_three_bytes_per_entry() {
    let colors = vec![Color { r: 1, g: 2, b: 3 }, Color { r: 4, g: 5, b: 6 }];
    let img = image(8, 1, 1, colors, vec![0; 8]);
    assert_eq!(img.get_cmap(), vec![1, 2, 3, 4, 5, 6]);
}

#[test]
fn write_whole_file() {
    let img = image(8, 1, 1, vec![grey(0), grey(255)], vec![0, 1, 0, 1, 0, 1, 0, 1]);
    let mut out = Vec::new();
    img.write(&mut out);
    let mut expected = Vec::new();
    expected.extend_from_slice(b"FORM");
    expected.extend_from_slice(&(4u32 + 8 + 20 + 8 + 6 + 8 + 1).to_be_bytes());
    expected.extend_from_slice(b"ILBM");
    expected.extend_from_slice(b"BMHD");
    expected.extend_from_slice(&20u32.to_be_bytes());
    expected.extend_from_slice(&img.get_bmhd());
    expected.extend_from_slice(b"CMAP");
    expected.extend_from_slice(&6u32.to_be_bytes());
    expected.extend_from_slice(&[0, 0, 0, 255, 255, 255]);
    expected.extend_from_slice(b"BODY");
    expected.extend_from_slice(&1u32.to_be_bytes());
    expected.push(0b01010101);
    assert_eq!(out, expected);
    assert_eq!(img.get_ilbm(), expected[8..].to_vec());
}

#[test]
fn write_appends_and_repeats() {
    let img = image(8, 1, 1, vec![grey(0), grey(9)], vec![1, 1, 0, 0, 1, 1, 0, 0]);
    let mut first = vec![7u8];
    img.write(&mut first);
    let mut second = Vec::new();
    img.write(&mut second);
    assert_eq!(first[0], 7);
    assert_eq!(first[1..].to_vec(), second);
}

#[test]
fn bitplane_count_formula() {
    let sizes = [1usize, 2, 3, 4, 5, 255];
    let counts = [0u8, 1, 2, 2, 3, 8];
    for (n, b) in sizes.iter().zip(counts.iter()) {
        assert_eq!(bitplane_count(*n), *b);
    }
    assert_eq!(bitplane_count(128), 7);
    assert_eq!(bitplane_count(129), 8);
}

#[test]
fn convert_maps_pixels_to_indices() {
    let palette = vec![0, 0, 0, 255, 0, 0, 0, 255, 0];
    let mut px = Vec::new();
    for i in [0usize, 1, 2, 2, 1, 0, 0, 1] {
        px.extend_from_slice(&palette[3 * i..3 * i + 3]);
    }
    let img = from_decoded(&indexed(8, 1, palette, px)).unwrap();
    assert_eq!(img.pixels, vec![0, 1, 2, 2, 1, 0, 0, 1]);
    assert_eq!(img.bmhd.bitplanes, 2);
    assert_eq!(img.bmhd.width, 8);
    assert_eq!(img.bmhd.page_width, 8);
    assert_eq!(img.bmhd.height, 1);
    assert_eq!(img.bmhd.page_height, 1);
    assert_eq!(img.cmap.colors.len(), 3);
    assert_eq!(img.cmap.colors[1], Color { r: 255, g: 0, b: 0 });
    assert_eq!(img.get_body(), vec![0b01001001, 0b00110000]);
}

#[test]
fn convert_picks_first_duplicate() {
    let palette = vec![9, 9, 9, 5, 5, 5, 5, 5, 5];
    let img = from_decoded(&indexed(1, 1, palette, vec![5, 5, 5])).unwrap();
    assert_eq!(img.pixels, vec![1]);
}

#[test]
fn convert_rejects_wrong_color_type() {
    let mut raw = indexed(1, 1, vec![0, 0, 0], vec![0, 0, 0]);
    raw.color_type = ColorType::Rgb;
    assert_eq!(from_decoded(&raw).unwrap_err(), IffConvertError::WrongColorType(ColorType::Rgb));
}

#[test]
fn convert_rejects_missing_palette() {
    let mut raw = indexed(1, 1, vec![], vec![0, 0, 0]);
    raw.palette = None;
    assert_eq!(from_decoded(&raw).unwrap_err(), IffConvertError::NoPalette);
}

#[test]
fn convert_rejects_empty_palette() {
    let raw = indexed(1, 1, vec![], vec![0, 0, 0]);
    assert_eq!(from_decoded(&raw).unwrap_err(), IffConvertError::EmptyPalette);
}

#[test]
fn convert_rejects_too_many_colors() {
    let raw = indexed(1, 1, vec![0; 3 * 256], vec![0, 0, 0]);
    assert_eq!(from_decoded(&raw).unwrap_err(), IffConvertError::TooManyColors(256));
    let ok = indexed(1, 1, vec![0; 3 * 255], vec![0, 0, 0]);
    assert_eq!(from_decoded(&ok).unwrap().bmhd.bitplanes, 8);
}

#[test]
fn convert_rejects_stray_pixel() {
    let raw = indexed(3, 1, vec![0, 0, 0, 1, 1, 1], vec![1, 1, 1, 2, 3, 4, 9, 9, 9]);
    assert_eq!(from_decoded(&raw).unwrap_err(), IffConvertError::InvalidPixel([2, 3, 4]));
}

#[test]
fn convert_rejects_wrong_size() {
    let raw = indexed(2, 1, vec![0, 0, 0], vec![0, 0, 0]);
    assert_eq!(from_decoded(&raw).unwrap_err(), IffConvertError::InvalidSize(2, 1));
    let wide = indexed(70000, 0, vec![0, 0, 0], vec![]);
    assert_eq!(from_decoded(&wide).unwrap_err(), IffConvertError::InvalidSize(70000, 0));
}

fn encode_indexed(width: u32, height: u32, palette: &[u8], indices: &[u8]) -> Vec<u8> {
    let mut bytes = Vec::new();
    {
        let mut enc = png::Encoder::new(&mut bytes, width, height);
        enc.set_color(png::ColorType::Indexed);
        enc.set_depth(png::BitDepth::Eight);
        enc.set_palette(palette.to_vec());
        let mut writer = enc.write_header().unwrap();
        writer.write_image_data(indices).unwrap();
    }
    bytes
}

#[test]
fn load_indexed_png() {
    let palette = [10, 20, 30, 40, 50, 60, 70, 80, 90];
    let bytes = encode_indexed(8, 2, &palette, &[0, 1, 2, 2, 1, 0, 0, 1, 2, 2, 2, 2, 0, 0, 0, 0]);
    let img = IffImage::from_png_bytes(&bytes).unwrap();
    assert_eq!(img.pixels, vec![0, 1, 2, 2, 1, 0, 0, 1, 2, 2, 2, 2, 0, 0, 0, 0]);
    assert_eq!(img.get_cmap(), palette.to_vec());
    assert_eq!(img.bmhd.bitplanes, 2);
    let mut a = Vec::new();
    img.write(&mut a);
    let mut b = Vec::new();
    IffImage::from_png_bytes(&bytes).unwrap().write(&mut b);
    assert_eq!(a, b);
}

#[test]
fn load_rgb_png_is_rejected() {
    let mut bytes = Vec::new();
    {
        let mut enc = png::Encoder::new(&mut bytes, 1, 1);
        enc.set_color(png::ColorType::RGB);
        enc.set_depth(png::BitDepth::Eight);
        let mut writer = enc.write_header().unwrap();
        writer.write_image_data(&[1, 2, 3]).unwrap();
    }
    match IffImage::from_png_bytes(&bytes) {
        Err(IffLoadError::IffConvertError(e)) => {
            assert_eq!(e, IffConvertError::WrongColorType(ColorType::Rgb))
        }
        _ => panic!("expected a conversion error"),
    }
}

#[test]
fn load_garbage_is_decode_error() {
    let r = IffImage::from_png_bytes(&vec![1, 2, 3, 4]);
    assert!(matches!(r, Err(IffLoadError::PngDecodeError(_))));
}
