use vstd::arithmetic::power2::{lemma2_to64, lemma_pow2_strictly_increases, lemma_pow2_unfold, pow2};
use vstd::prelude::*;

verus! {

/// The ILBM bitmap header (`BMHD`).
#[derive(Clone, Copy, Debug, PartialEq, Eq)]
pub struct BitmapHeader {
    pub width: u16,
    pub height: u16,
    pub x: i16,
    pub y: i16,
    pub bitplanes: u8,
    pub masking: u8,
    pub compression: u8,
    pub pad1: u8,
    pub transparent_color: u16,
    pub x_aspect: u8,
    pub y_aspect: u8,
    pub page_width: u16,
    pub page_height: u16,
}

/// One palette entry.
#[derive(Clone, Copy, Debug, PartialEq, Eq)]
pub struct Color {
    pub r: u8,
    pub g: u8,
    pub b: u8,
}

/// The palette (`CMAP`).
#[derive(Debug)]
pub struct ColorMap {
    pub colors: Vec<Color>,
}

/// An indexed image: header, palette and one palette index per pixel, row by row.
#[derive(Debug)]
pub struct IffImage {
    pub bmhd: BitmapHeader,
    pub cmap: ColorMap,
    pub pixels: Vec<u8>,
}

/// Big-endian bytes of a 16-bit value.
pub open spec fn be16(v: u16) -> Seq<u8> {
    seq![(v / 256) as u8, (v % 256) as u8]
}

/// Big-endian bytes of a 32-bit value.
pub open spec fn be32(v: u32) -> Seq<u8> {
    seq![(v / 0x100_0000) as u8, (v / 0x1_0000 % 256) as u8, (v / 256 % 256) as u8, (v % 256) as u8]
}

/// The 20 bytes of a header; the pad byte is always written as zero.
pub open spec fn bmhd_bytes(h: BitmapHeader) -> Seq<u8> {
    be16(h.width) + be16(h.height) + be16(h.x as u16) + be16(h.y as u16)
        + seq![h.bitplanes, h.masking, h.compression, 0u8]
        + be16(h.transparent_color) + seq![h.x_aspect, h.y_aspect]
        + be16(h.page_width) + be16(h.page_height)
}

/// Each palette entry as three bytes R, G, B, in palette order.
pub open spec fn cmap_bytes(colors: Seq<Color>) -> Seq<u8>
    decreases colors.len(),
{
    if colors.len() == 0 {
        Seq::empty()
    } else {
        cmap_bytes(colors.drop_last()) + seq![colors.last().r, colors.last().g, colors.last().b]
    }
}

/// Bit `bpl` of a palette index, as 0 or 1.
pub open spec fn pixel_bit(p: u8, bpl: u8) -> nat {
    if (p >> bpl) & 1u8 == 1u8 { 1 } else { 0 }
}

/// Bit `bpl` of the `n` pixels from `start` on, read as a binary number whose
/// most significant bit is the leftmost pixel.
pub open spec fn pack_bits(px: Seq<u8>, start: int, bpl: u8, n: nat) -> nat
    decreases n,
{
    if n == 0 {
        0
    } else {
        2 * pack_bits(px, start, bpl, (n - 1) as nat) + pixel_bit(px[start + n - 1], bpl)
    }
}

/// One byte of a plane row: bit `bpl` of the eight pixels from `start` on.
pub open spec fn plane_byte(px: Seq<u8>, start: int, bpl: u8) -> u8 {
    pack_bits(px, start, bpl, 8) as u8
}

/// Row `y` of plane `bpl`: `width / 8` bytes, left to right.
pub open spec fn plane_row(h: BitmapHeader, px: Seq<u8>, y: int, bpl: u8) -> Seq<u8> {
    Seq::new((h.width / 8) as nat, |k: int| plane_byte(px, y * h.width + k * 8, bpl))
}

/// Row `y` of the image: the rows of planes `0 .. n`, one after another.
pub open spec fn interleaved_row(h: BitmapHeader, px: Seq<u8>, y: int, n: nat) -> Seq<u8>
    decreases n,
{
    if n == 0 {
        Seq::empty()
    } else {
        interleaved_row(h, px, y, (n - 1) as nat) + plane_row(h, px, y, (n - 1) as u8)
    }
}

/// The first `n` image rows, each with all of its planes.
pub open spec fn body_rows(h: BitmapHeader, px: Seq<u8>, n: nat) -> Seq<u8>
    decreases n,
{
    if n == 0 {
        Seq::empty()
    } else {
        body_rows(h, px, (n - 1) as nat) + interleaved_row(h, px, n - 1, h.bitplanes as nat)
    }
}

/// The `BODY` payload: row-interleaved, uncompressed bitplanes.
pub open spec fn body_bytes(h: BitmapHeader, px: Seq<u8>) -> Seq<u8> {
    body_rows(h, px, h.height as nat)
}

proof fn lemma_pack_bits_bound(px: Seq<u8>, start: int, bpl: u8, n: nat)
    ensures
        pack_bits(px, start, bpl, n) < pow2(n),
    decreases n,
{
    if n > 0 {
        lemma_pack_bits_bound(px, start, bpl, (n - 1) as nat);
        lemma_pow2_unfold(n);
    } else {
        lemma2_to64();
    }
}

/// The four ASCII bytes of a chunk tag.
pub open spec fn tag(a: u8, b: u8, c: u8, d: u8) -> Seq<u8> {
    seq![a, b, c, d]
}

/// A chunk: its tag, the big-endian length of its payload, then the payload.
pub open spec fn chunk(t: Seq<u8>, payload: Seq<u8>) -> Seq<u8> {
    t + be32(payload.len() as u32) + payload
}

impl IffImage {
    /// What the encoder needs: one index per pixel, at most eight planes and
    /// at most 255 palette entries.
    pub open spec fn encodable(&self) -> bool {
        &&& self.pixels@.len() == self.bmhd.width * self.bmhd.height
        &&& self.bmhd.bitplanes <= 8
        &&& self.cmap.colors@.len() <= 255
    }

    /// The `ILBM` form content: its type tag and the `BMHD`, `CMAP` and
    /// `BODY` chunks, with no padding to even lengths.
    pub open spec fn ilbm_bytes(&self) -> Seq<u8> {
        let ilbm = tag(0x49, 0x4c, 0x42, 0x4d);  // "ILBM"
        let bmhd = chunk(tag(0x42, 0x4d, 0x48, 0x44), bmhd_bytes(self.bmhd));  // "BMHD"
        let cmap = chunk(tag(0x43, 0x4d, 0x41, 0x50), cmap_bytes(self.cmap.colors@));  // "CMAP"
        let body = chunk(tag(0x42, 0x4f, 0x44, 0x59), body_bytes(self.bmhd, self.pixels@));  // "BODY"
        ilbm + bmhd + cmap + body
    }

    /// The whole file: the `FORM` chunk around the `ILBM` content.
    pub open spec fn form_bytes(&self) -> Seq<u8> {
        // "FORM"
        chunk(tag(0x46, 0x4f, 0x52, 0x4d), self.ilbm_bytes())
    }
}

/// The palette payload holds three bytes per entry.
pub proof fn lemma_cmap_len(colors: Seq<Color>)
    ensures
        cmap_bytes(colors).len() == 3 * colors.len(),
    decreases colors.len(),
{
    if colors.len() > 0 {
        lemma_cmap_len(colors.drop_last());
    }
}

proof fn lemma_interleaved_row_len(h: BitmapHeader, px: Seq<u8>, y: int, n: nat)
    ensures
        interleaved_row(h, px, y, n).len() == n * (h.width / 8),
    decreases n,
{
    if n > 0 {
        let m = (n - 1) as nat;
        let w = h.width / 8;
        lemma_interleaved_row_len(h, px, y, m);
        assert(plane_row(h, px, y, m as u8).len() == w);
        assert(interleaved_row(h, px, y, n) == interleaved_row(h, px, y, m) + plane_row(
            h,
            px,
            y,
            m as u8,
        ));
        assert(m * w + w == n * w) by (nonlinear_arith)
            requires
                m + 1 == n,
        ;
        assert(interleaved_row(h, px, y, n).len() == m * w + w);
    } else {
        assert(n * (h.width / 8) == 0) by (nonlinear_arith)
            requires
                n == 0,
        ;
    }
}

proof fn lemma_body_rows_len(h: BitmapHeader, px: Seq<u8>, n: nat)
    ensures
        body_rows(h, px, n).len() == n * h.bitplanes * (h.width / 8),
    decreases n,
{
    if n > 0 {
        lemma_body_rows_len(h, px, (n - 1) as nat);
        lemma_interleaved_row_len(h, px, n - 1, h.bitplanes as nat);
        let m = (n - 1) as nat;
        let b = h.bitplanes as nat;
        let w = h.width / 8;
        assert(m * b * w + b * w == n * b * w) by (nonlinear_arith)
            requires
                m + 1 == n,
        ;
        assert(body_rows(h, px, n).len() == m * b * w + b * w);
    } else {
        assert(n * h.bitplanes * (h.width / 8) == 0) by (nonlinear_arith)
            requires
                n == 0,
        ;
    }
}

/// The body holds `height * bitplanes * (width / 8)` bytes.
pub proof fn lemma_body_len(h: BitmapHeader, px: Seq<u8>)
    ensures
        body_bytes(h, px).len() == h.height * h.bitplanes * (h.width / 8),
{
    lemma_body_rows_len(h, px, h.height as nat);
}

/// Every chunk length of an encodable image fits in 32 bits.
proof fn lemma_lengths_fit(img: IffImage)
    requires
        img.encodable(),
    ensures
        cmap_bytes(img.cmap.colors@).len() <= 765,
        body_bytes(img.bmhd, img.pixels@).len() <= 65535 * 8 * 8191,
{
    lemma_cmap_len(img.cmap.colors@);
    lemma_body_len(img.bmhd, img.pixels@);
    let h = img.bmhd;
    assert(h.height * h.bitplanes * (h.width / 8) <= 65535 * 8 * 8191) by (nonlinear_arith)
        requires
            h.height <= 65535,
            h.bitplanes <= 8,
            h.width / 8 <= 8191,
    ;
}

fn push_tag(v: &mut Vec<u8>, a: u8, b: u8, c: u8, d: u8)
    ensures
        final(v)@ == old(v)@ + tag(a, b, c, d),
{
    v.push(a);
    v.push(b);
    v.push(c);
    v.push(d);
    assert(final(v)@ =~= old(v)@ + tag(a, b, c, d));
}

fn push_be16(v: &mut Vec<u8>, x: u16)
    ensures
        final(v)@ == old(v)@ + be16(x),
{
    v.push((x / 256) as u8);
    v.push((x % 256) as u8);
    assert(final(v)@ =~= old(v)@ + be16(x));
}

fn push_be32(v: &mut Vec<u8>, x: u32)
    ensures
        final(v)@ == old(v)@ + be32(x),
{
    v.push((x / 0x100_0000) as u8);
    v.push((x / 0x1_0000 % 256) as u8);
    v.push((x / 256 % 256) as u8);
    v.push((x % 256) as u8);
    assert(final(v)@ =~= old(v)@ + be32(x));
}

/// Bit `bpl` of the eight pixels from `start` on, leftmost pixel in the top bit.
fn pack_plane_byte(px: &Vec<u8>, start: usize, bpl: u8) -> (r: u8)
    requires
        start + 8 <= px@.len(),
        bpl < 8,
    ensures
        r == plane_byte(px@, start as int, bpl),
{
    let len = px.len();
    let mut value: u8 = 0;
    let mut bit: usize = 0;
    while bit < 8
        invariant
            len == px@.len(),
            start + 8 <= len,
            bpl < 8,
            bit <= 8,
            value as nat == pack_bits(px@, start as int, bpl, bit as nat),
        decreases 8 - bit,
    {
        proof {
            lemma_pack_bits_bound(px@, start as int, bpl, bit as nat);
            lemma_pow2_unfold((bit + 1) as nat);
            lemma2_to64();
            if bit < 7 {
                lemma_pow2_strictly_increases((bit + 1) as nat, 8);
            }
        }
        let p = px[start + bit];
        let b: u8 = (p >> bpl) & 1u8;
        assert(b <= 1) by (bit_vector)
            requires
                b == (p >> bpl) & 1u8,
        ;
        value = value * 2 + b;
        bit = bit + 1;
    }
    value
}

impl IffImage {
    /// The header as its 20 big-endian bytes.
    pub fn get_bmhd(&self) -> (r: Vec<u8>)
        ensures
            r@ == bmhd_bytes(self.bmhd),
    {
        let h = &self.bmhd;
        let mut v: Vec<u8> = Vec::new();
        push_be16(&mut v, h.width);
        push_be16(&mut v, h.height);
        push_be16(&mut v, h.x as u16);
        push_be16(&mut v, h.y as u16);
        v.push(h.bitplanes);
        v.push(h.masking);
        v.push(h.compression);
        v.push(0);
        push_be16(&mut v, h.transparent_color);
        v.push(h.x_aspect);
        v.push(h.y_aspect);
        push_be16(&mut v, h.page_width);
        push_be16(&mut v, h.page_height);
        assert(v@ =~= bmhd_bytes(self.bmhd));
        v
    }

    /// The palette as R, G, B bytes per entry.
    pub fn get_cmap(&self) -> (r: Vec<u8>)
        ensures
            r@ == cmap_bytes(self.cmap.colors@),
    {
        let mut v: Vec<u8> = Vec::new();
        let n = self.cmap.colors.len();
        let mut i: usize = 0;
        while i < n
            invariant
                n == self.cmap.colors@.len(),
                i <= n,
                v@ == cmap_bytes(self.cmap.colors@.take(i as int)),
            decreases n - i,
        {
            let c = self.cmap.colors[i];
            v.push(c.r);
            v.push(c.g);
            v.push(c.b);
            proof {
                let s = self.cmap.colors@.take(i + 1);
                assert(s.drop_last() =~= self.cmap.colors@.take(i as int));
            }
            i = i + 1;
        }
        assert(self.cmap.colors@.take(n as int) =~= self.cmap.colors@);
        v
    }
    /// The bitplanes, row-interleaved: for each image row, the row of plane 0,
    /// then of plane 1, and so on; `width / 8` bytes per plane row.
    pub fn get_body(&self) -> (r: Vec<u8>)
        requires
            self.pixels@.len() == self.bmhd.width * self.bmhd.height,
            self.bmhd.bitplanes <= 8,
        ensures
            r@ == body_bytes(self.bmhd, self.pixels@),
    {
        let width = self.bmhd.width as usize;
        let height = self.bmhd.height as usize;
        let planes = self.bmhd.bitplanes;
        let row_bytes = width / 8;
        let len = self.pixels.len();
        let ghost h = self.bmhd;
        let ghost px = self.pixels@;
        let mut v: Vec<u8> = Vec::new();
        let mut y: usize = 0;
        while y < height
            invariant
                h == self.bmhd,
                px == self.pixels@,
                width == h.width,
                height == h.height,
                planes == h.bitplanes,
                planes <= 8,
                row_bytes == width / 8,
                px.len() == width * height,
                len == px.len(),
                y <= height,
                v@ == body_rows(h, px, y as nat),
            decreases height - y,
        {
            let ghost done = v@;
            let mut bpl: u8 = 0;
            while bpl < planes
                invariant
                    h == self.bmhd,
                    px == self.pixels@,
                    width == h.width,
                    planes == h.bitplanes,
                    planes <= 8,
                    row_bytes == width / 8,
                    px.len() == width * height,
                    len == px.len(),
                    y < height,
                    bpl <= planes,
                    v@ == done + interleaved_row(h, px, y as int, bpl as nat),
                decreases planes - bpl,
            {
                let ghost before = v@;
                let mut k: usize = 0;
                while k < row_bytes
                    invariant
                        h == self.bmhd,
                        px == self.pixels@,
                        width == h.width,
                        row_bytes == width / 8,
                        px.len() == width * height,
                        len == px.len(),
                        y < height,
                        bpl < 8,
                        k <= row_bytes,
                        v@ == before + plane_row(h, px, y as int, bpl).take(k as int),
                    decreases row_bytes - k,
                {
                    proof {
                        assert(y * width + k * 8 + 8 <= width * height) by (nonlinear_arith)
                            requires
                                y < height,
                                k < width / 8,
                        ;
                    }
                    let byte = pack_plane_byte(&self.pixels, y * width + k * 8, bpl);
                    v.push(byte);
                    assert(plane_row(h, px, y as int, bpl).take(k + 1) =~= plane_row(
                        h,
                        px,
                        y as int,
                        bpl,
                    ).take(k as int).push(byte));
                    k = k + 1;
                }
                assert(plane_row(h, px, y as int, bpl).take(k as int) =~= plane_row(h, px, y as int, bpl));
                assert(v@ =~= done + interleaved_row(h, px, y as int, (bpl + 1) as nat));
                bpl = bpl + 1;
            }
            assert(v@ =~= body_rows(h, px, (y + 1) as nat));
            y = y + 1;
        }
        v
    }
    /// The `ILBM` form content: type tag and the three chunks.
    pub fn get_ilbm(&self) -> (r: Vec<u8>)
        requires
            self.encodable(),
        ensures
            r@ == self.ilbm_bytes(),
    {
        proof {
            lemma_lengths_fit(*self);
        }
        let mut v: Vec<u8> = Vec::new();
        push_tag(&mut v, 0x49, 0x4c, 0x42, 0x4d);  // "ILBM"
        push_tag(&mut v, 0x42, 0x4d, 0x48, 0x44);  // "BMHD"
        let bmhd = self.get_bmhd();
        push_be32(&mut v, bmhd.len() as u32);
        append_bytes(&mut v, &bmhd);
        push_tag(&mut v, 0x43, 0x4d, 0x41, 0x50);  // "CMAP"
        let cmap = self.get_cmap();
        push_be32(&mut v, cmap.len() as u32);
        append_bytes(&mut v, &cmap);
        push_tag(&mut v, 0x42, 0x4f, 0x44, 0x59);  // "BODY"
        let body = self.get_body();
        push_be32(&mut v, body.len() as u32);
        append_bytes(&mut v, &body);
        assert(v@ =~= self.ilbm_bytes());
        v
    }

    /// Appends the whole file, the `FORM` chunk, to `out`.
    pub fn write(&self, out: &mut Vec<u8>)
        requires
            self.encodable(),
        ensures
            final(out)@ == old(out)@ + self.form_bytes(),
    {
        let ilbm = self.get_ilbm();
        proof {
            lemma_lengths_fit(*self);
            lemma_cmap_len(self.cmap.colors@);
        }
        let ghost start = out@;
        push_tag(out, 0x46, 0x4f, 0x52, 0x4d);  // "FORM"
        push_be32(out, ilbm.len() as u32);
        append_bytes(out, &ilbm);
        assert(out@ =~= start + self.form_bytes());
    }
}

/// Appends `src` to `v`.
fn append_bytes(v: &mut Vec<u8>, src: &Vec<u8>)
    ensures
        final(v)@ == old(v)@ + src@,
{
    let ghost start = v@;
    let n = src.len();
    let mut i: usize = 0;
    while i < n
        invariant
            n == src@.len(),
            i <= n,
            v@ == start + src@.take(i as int),
        decreases n - i,
    {
        v.push(src[i]);
        assert(src@.take(i + 1) =~= src@.take(i as int).push(src@[i as int]));
        i = i + 1;
    }
    assert(src@.take(n as int) =~= src@);
}

} // verus!
