use crate::image::{BitmapHeader, Color, ColorMap, IffImage};
use vstd::arithmetic::power2::{lemma2_to64, lemma_pow2_strictly_increases, lemma_pow2_unfold, pow2};
use vstd::prelude::*;

verus! {

/// The colour type that a PNG declares.
#[derive(Clone, Copy, Debug, PartialEq, Eq, Structural)]
pub enum ColorType {
    Grayscale,
    Rgb,
    Indexed,
    GrayscaleAlpha,
    Rgba,
}

/// Why a decoded image cannot become a bitmap.
#[derive(Clone, Copy, Debug, PartialEq, Eq)]
pub enum IffConvertError {
    WrongColorType(ColorType),
    NoPalette,
    EmptyPalette,
    TooManyColors(usize),
    /// The pixel data does not hold one RGB triple for each of `width * height`
    /// pixels, or a side does not fit in 16 bits.
    InvalidSize(u32, u32),
    InvalidPixel([u8; 3]),
}

/// A decoded PNG: its geometry, declared colour type and palette, and its
/// pixels expanded to RGB triples, row by row.
#[derive(Debug)]
pub struct DecodedPng {
    pub width: u32,
    pub height: u32,
    pub color_type: ColorType,
    pub palette: Option<Vec<u8>>,
    pub pixels: Vec<u8>,
}

/// What a `DecodedPng` holds, as plain values.
pub ghost struct PngView {
    pub width: u32,
    pub height: u32,
    pub color_type: ColorType,
    pub palette: Option<Seq<u8>>,
    pub pixels: Seq<u8>,
}

impl View for DecodedPng {
    type V = PngView;

    open spec fn view(&self) -> PngView {
        PngView {
            width: self.width,
            height: self.height,
            color_type: self.color_type,
            palette: match self.palette {
                Some(p) => Some(p@),
                None => None,
            },
            pixels: self.pixels@,
        }
    }
}

/// `b` planes are the fewest that give each of `n` colours its own index.
pub open spec fn is_bitplane_count(n: nat, b: nat) -> bool {
    n <= pow2(b) && (b == 0 || pow2((b - 1) as nat) < n)
}

/// Palette entry `k` of a palette given as RGB bytes.
pub open spec fn palette_color(pal: Seq<u8>, k: int) -> Color {
    Color { r: pal[3 * k], g: pal[3 * k + 1], b: pal[3 * k + 2] }
}

/// The palette entries; trailing bytes that make no whole entry are ignored.
pub open spec fn palette_colors(pal: Seq<u8>) -> Seq<Color> {
    Seq::new(pal.len() / 3, |k: int| palette_color(pal, k))
}

/// `k` is the first palette entry equal to `c`.
pub open spec fn is_first_match(colors: Seq<Color>, c: Color, k: int) -> bool {
    &&& 0 <= k < colors.len()
    &&& colors[k] == c
    &&& forall|j: int| 0 <= j < k ==> colors[j] != c
}

/// Some palette entry equals `c`.
pub open spec fn in_palette(colors: Seq<Color>, c: Color) -> bool {
    exists|k: int| 0 <= k < colors.len() && colors[k] == c
}

/// The first of the first `n` pixels whose colour is not in the palette.
pub open spec fn first_unmatched(colors: Seq<Color>, px: Seq<u8>, n: nat) -> Option<int>
    decreases n,
{
    if n == 0 {
        None
    } else {
        match first_unmatched(colors, px, (n - 1) as nat) {
            Some(i) => Some(i),
            None => if in_palette(colors, palette_color(px, n - 1)) {
                None
            } else {
                Some(n - 1)
            },
        }
    }
}

/// The error of a conversion, checked in order: colour type, palette present,
/// palette not empty, at most 255 entries, size, then the first stray pixel.
pub open spec fn convert_error(v: PngView) -> Option<IffConvertError> {
    if v.color_type != ColorType::Indexed {
        Some(IffConvertError::WrongColorType(v.color_type))
    } else if v.palette is None {
        Some(IffConvertError::NoPalette)
    } else if v.palette->Some_0.len() / 3 == 0 {
        Some(IffConvertError::EmptyPalette)
    } else if v.palette->Some_0.len() / 3 > 255 {
        Some(IffConvertError::TooManyColors((v.palette->Some_0.len() / 3) as usize))
    } else if !(v.width <= 0xffff && v.height <= 0xffff && v.pixels.len() == 3 * v.width
        * v.height) {
        Some(IffConvertError::InvalidSize(v.width, v.height))
    } else {
        match first_unmatched(
            palette_colors(v.palette->Some_0),
            v.pixels,
            (v.width * v.height) as nat,
        ) {
            Some(i) => Some(
                IffConvertError::InvalidPixel([v.pixels[3 * i], v.pixels[3 * i + 1], v.pixels[3 * i + 2]]),
            ),
            None => None,
        }
    }
}

/// The image that a conversion of `v` yields, when it succeeds.
pub open spec fn image_of(v: PngView, img: IffImage) -> bool {
    let colors = palette_colors(v.palette->Some_0);
    &&& img.bmhd == BitmapHeader {
        width: v.width as u16,
        height: v.height as u16,
        x: 0,
        y: 0,
        bitplanes: img.bmhd.bitplanes,
        masking: 0,
        compression: 0,
        pad1: 0,
        transparent_color: 0,
        x_aspect: 0,
        y_aspect: 0,
        page_width: v.width as u16,
        page_height: v.height as u16,
    }
    &&& is_bitplane_count(colors.len(), img.bmhd.bitplanes as nat)
    &&& img.cmap.colors@ == colors
    &&& img.pixels@.len() == v.width * v.height
    &&& forall|i: int|
        0 <= i < img.pixels@.len() ==> is_first_match(
            colors,
            palette_color(v.pixels, i),
            img.pixels@[i] as int,
        )
}

impl IffImage {
    /// A well-formed image: one index per pixel, each below the palette size,
    /// 1 to 255 palette entries, and just enough planes for them.
    pub open spec fn wf(&self) -> bool {
        &&& self.pixels@.len() == self.bmhd.width * self.bmhd.height
        &&& 1 <= self.cmap.colors@.len() <= 255
        &&& is_bitplane_count(self.cmap.colors@.len(), self.bmhd.bitplanes as nat)
        &&& forall|i: int| 0 <= i < self.pixels@.len() ==> self.pixels@[i] < self.cmap.colors@.len()
    }
}

/// Eight planes are enough for at most 256 colours.
pub proof fn lemma_bitplane_count_bound(n: nat, b: nat)
    requires
        is_bitplane_count(n, b),
        n <= 256,
    ensures
        b <= 8,
{
    lemma2_to64();
    if b > 8 {
        lemma_pow2_strictly_increases(8, (b - 1) as nat);
    }
}

/// A well-formed image can be encoded.
pub proof fn lemma_wf_encodable(img: IffImage)
    requires
        img.wf(),
    ensures
        img.encodable(),
{
    lemma_bitplane_count_bound(img.cmap.colors@.len(), img.bmhd.bitplanes as nat);
}

/// The number of bitplanes needed for `num_colors` colours: the smallest `b`
/// with `num_colors <= 2^b` (1 colour needs none).
pub fn bitplane_count(num_colors: usize) -> (r: u8)
    requires
        1 <= num_colors <= 255,
    ensures
        is_bitplane_count(num_colors as nat, r as nat),
        r <= 8,
{
    let mut b: u8 = 0;
    let mut cap: usize = 1;
    proof {
        lemma2_to64();
    }
    while cap < num_colors
        invariant
            1 <= num_colors <= 255,
            cap == pow2(b as nat),
            b == 0 || pow2((b - 1) as nat) < num_colors,
            b <= 8,
        decreases 256 - cap,
    {
        proof {
            lemma2_to64();
            if b >= 8 {
                if b > 8 {
                    lemma_pow2_strictly_increases(8, b as nat);
                }
            }
            lemma_pow2_unfold((b + 1) as nat);
        }
        cap = cap * 2;
        b = b + 1;
    }
    b
}

/// The index of the first palette entry equal to `c`, if any.
fn find_color(colors: &Vec<Color>, c: Color) -> (r: Option<usize>)
    ensures
        r is Some ==> is_first_match(colors@, c, r->Some_0 as int),
        r is None <==> !in_palette(colors@, c),
{
    let n = colors.len();
    let mut k: usize = 0;
    while k < n
        invariant
            n == colors@.len(),
            k <= n,
            forall|j: int| 0 <= j < k ==> colors@[j] != c,
        decreases n - k,
    {
        let e = colors[k];
        if e.r == c.r && e.g == c.g && e.b == c.b {
            assert(e == c);
            return Some(k);
        }
        k = k + 1;
    }
    None
}

/// The palette entries read from RGB bytes.
fn read_palette(pal: &Vec<u8>) -> (r: Vec<Color>)
    ensures
        r@ == palette_colors(pal@),
{
    let len = pal.len();
    let n = len / 3;
    let mut colors: Vec<Color> = Vec::new();
    let mut k: usize = 0;
    while k < n
        invariant
            len == pal@.len(),
            n == len / 3,
            k <= n,
            colors@ =~= palette_colors(pal@).take(k as int),
        decreases n - k,
    {
        assert(3 * k + 2 < len) by (nonlinear_arith)
            requires
                k < n,
                n == len / 3,
        ;
        colors.push(Color { r: pal[3 * k], g: pal[3 * k + 1], b: pal[3 * k + 2] });
        k = k + 1;
    }
    colors
}

/// The bitmap whose pixels are the palette indices of `raw`'s RGB pixels.
///
/// Fails, in this order of checks, unless the image is indexed, has a palette
/// of 1 to 255 entries, has sides that fit in 16 bits and one RGB triple per
/// pixel, and every pixel's colour is in the palette. Each pixel gets the
/// first palette entry of its colour.
pub fn from_decoded(raw: &DecodedPng) -> (r: Result<IffImage, IffConvertError>)
    ensures
        r is Err <==> convert_error(raw@) is Some,
        r is Err ==> r->Err_0 == convert_error(raw@)->Some_0,
        r is Ok ==> image_of(raw@, r->Ok_0) && r->Ok_0.wf(),
{
    if raw.color_type != ColorType::Indexed {
        return Err(IffConvertError::WrongColorType(raw.color_type));
    }
    let pal = match &raw.palette {
        None => {
            return Err(IffConvertError::NoPalette);
        },
        Some(p) => p,
    };
    let num_colors = pal.len() / 3;
    if num_colors == 0 {
        return Err(IffConvertError::EmptyPalette);
    }
    if num_colors > 255 {
        return Err(IffConvertError::TooManyColors(num_colors));
    }
    if raw.width > 0xffff || raw.height > 0xffff {
        return Err(IffConvertError::InvalidSize(raw.width, raw.height));
    }
    assert(raw.width * raw.height <= 0xffff * 0xffff) by (nonlinear_arith)
        requires
            raw.width <= 0xffff,
            raw.height <= 0xffff,
    ;
    let count = raw.width as usize * raw.height as usize;
    let len = raw.pixels.len();
    assert(3 * raw.width * raw.height == 3 * count) by (nonlinear_arith)
        requires
            count == raw.width * raw.height,
    ;
    if len % 3 != 0 || len / 3 != count {
        assert(len != 3 * count);
        return Err(IffConvertError::InvalidSize(raw.width, raw.height));
    }
    let bitplanes = bitplane_count(num_colors);
    let colors = read_palette(pal);
    let ghost v = raw@;
    let ghost cs = colors@;
    let mut pixels: Vec<u8> = Vec::new();
    let mut i: usize = 0;
    while i < count
        invariant
            v == raw@,
            cs == colors@,
            cs == palette_colors(v.palette->Some_0),
            cs.len() == num_colors,
            num_colors <= 255,
            len == v.pixels.len(),
            len == 3 * count,
            count == v.width * v.height,
            v.pixels.len() == 3 * v.width * v.height,
            v.color_type == ColorType::Indexed,
            v.palette is Some,
            1 <= v.palette->Some_0.len() / 3 <= 255,
            v.width <= 0xffff,
            v.height <= 0xffff,
            i <= count,
            pixels@.len() == i,
            first_unmatched(cs, v.pixels, i as nat) is None,
            forall|j: int|
                0 <= j < i ==> is_first_match(cs, palette_color(v.pixels, j), pixels@[j] as int),
        decreases count - i,
    {
        assert(3 * i + 2 < len) by (nonlinear_arith)
            requires
                i < count,
                len == 3 * count,
        ;
        let c = Color { r: raw.pixels[3 * i], g: raw.pixels[3 * i + 1], b: raw.pixels[3 * i + 2] };
        assert(c == palette_color(v.pixels, i as int));
        match find_color(&colors, c) {
            None => {
                assert(first_unmatched(cs, v.pixels, (i + 1) as nat) == Some(i as int));
                proof {
                    lemma_first_unmatched_stays(cs, v.pixels, (i + 1) as nat, count as nat);
                    assert(count == v.width * v.height);
                }

                return Err(IffConvertError::InvalidPixel([c.r, c.g, c.b]));
            },
            Some(k) => {
                pixels.push(k as u8);
            },
        }
        i = i + 1;
    }
    let img = IffImage {
        bmhd: BitmapHeader {
            width: raw.width as u16,
            height: raw.height as u16,
            x: 0,
            y: 0,
            bitplanes,
            masking: 0,
            compression: 0,
            pad1: 0,
            transparent_color: 0,
            x_aspect: 0,
            y_aspect: 0,
            page_width: raw.width as u16,
            page_height: raw.height as u16,
        },
        cmap: ColorMap { colors },
        pixels,
    };
    Ok(img)
}

/// Once a stray pixel is found among the first `n`, it stays the first one.
proof fn lemma_first_unmatched_stays(colors: Seq<Color>, px: Seq<u8>, n: nat, m: nat)
    requires
        n <= m,
        first_unmatched(colors, px, n) is Some,
    ensures
        first_unmatched(colors, px, m) == first_unmatched(colors, px, n),
    decreases m - n,
{
    if n < m {
        lemma_first_unmatched_stays(colors, px, n, (m - 1) as nat);
    }
}

#[verifier::external_type_specification]
#[verifier::external_body]
pub struct ExDecodingError(png::DecodingError);

#[verifier::external_type_specification]
#[verifier::external_body]
pub struct ExIoError(std::io::Error);

/// Why a PNG file cannot be loaded as a bitmap.
#[derive(Debug)]
pub enum IffLoadError {
    IoError(std::io::Error),
    PngDecodeError(png::DecodingError),
    IffConvertError(IffConvertError),
}

/// What the PNG decoder makes of some bytes: `None` where it fails.
pub uninterp spec fn decoded_png(bytes: Seq<u8>) -> Option<PngView>;

/// Relies on png's `Decoder::new(..).read_info()` and `Reader::next_frame`,
/// with the decoder's default transformations (indexed pixels come back as
/// RGB triples): the outcome depends on the bytes alone.
#[verifier::external_body]
fn decode_png(bytes: &Vec<u8>) -> (r: Result<DecodedPng, png::DecodingError>)
    ensures
        r is Ok <==> decoded_png(bytes@) is Some,
        r is Ok ==> decoded_png(bytes@) == Some(r->Ok_0@),
{
    let (out, mut reader) = png::Decoder::new(bytes.as_slice()).read_info()?;
    let color_type = match reader.info().color_type {
        png::ColorType::Grayscale => ColorType::Grayscale,
        png::ColorType::RGB => ColorType::Rgb,
        png::ColorType::Indexed => ColorType::Indexed,
        png::ColorType::GrayscaleAlpha => ColorType::GrayscaleAlpha,
        png::ColorType::RGBA => ColorType::Rgba,
    };
    let palette = reader.info().palette.clone();
    let mut pixels = vec![0u8; out.buffer_size()];
    reader.next_frame(&mut pixels)?;
    Ok(DecodedPng { width: out.width, height: out.height, color_type, palette, pixels })
}

/// What loading `bytes` gives: a decode error where the decoder fails, else
/// the conversion error of the decoded image, else its bitmap.
pub open spec fn load_outcome(bytes: Seq<u8>, r: Result<IffImage, IffLoadError>) -> bool {
    match decoded_png(bytes) {
        None => r matches Err(IffLoadError::PngDecodeError(_)),
        Some(v) => match convert_error(v) {
            Some(e) => r matches Err(IffLoadError::IffConvertError(f)) && f == e,
            None => r is Ok && image_of(v, r->Ok_0) && r->Ok_0.wf(),
        },
    }
}

impl IffImage {
    /// Decodes a PNG and converts it to a bitmap (see `from_decoded`).
    pub fn from_png_bytes(bytes: &Vec<u8>) -> (r: Result<IffImage, IffLoadError>)
        ensures
            load_outcome(bytes@, r),
    {
        match decode_png(bytes) {
            Err(e) => Err(IffLoadError::PngDecodeError(e)),
            Ok(raw) => match from_decoded(&raw) {
                Err(e) => Err(IffLoadError::IffConvertError(e)),
                Ok(img) => Ok(img),
            },
        }
    }
}

} // verus!
