use crate::convert::{
    decoded_png, image_of, is_bitplane_count, is_first_match, load_outcome,
    palette_colors, IffLoadError,
};
use crate::image::{bmhd_bytes, cmap_bytes, lemma_cmap_len, BitmapHeader, IffImage};
use vstd::arithmetic::power2::lemma_pow2_strictly_increases;
use vstd::prelude::*;

verus! {

/// The big-endian 16-bit value at `i`.
pub open spec fn read_be16(s: Seq<u8>, i: int) -> int {
    s[i] * 256 + s[i + 1]
}

/// Reading the 20 header bytes back, big-endian, gives every field of the
/// header again, at its fixed offset.
pub proof fn lemma_header_round_trip(h: BitmapHeader)
    ensures
        bmhd_bytes(h).len() == 20,
        read_be16(bmhd_bytes(h), 0) == h.width,
        read_be16(bmhd_bytes(h), 2) == h.height,
        read_be16(bmhd_bytes(h), 4) == h.x as u16,
        read_be16(bmhd_bytes(h), 6) == h.y as u16,
        bmhd_bytes(h)[8] == h.bitplanes,
        bmhd_bytes(h)[9] == h.masking,
        bmhd_bytes(h)[10] == h.compression,
        bmhd_bytes(h)[11] == 0,
        read_be16(bmhd_bytes(h), 12) == h.transparent_color,
        bmhd_bytes(h)[14] == h.x_aspect,
        bmhd_bytes(h)[15] == h.y_aspect,
        read_be16(bmhd_bytes(h), 16) == h.page_width,
        read_be16(bmhd_bytes(h), 18) == h.page_height,
{
}

/// A well-formed image has 1 to 255 palette entries, and its palette payload
/// holds three bytes for each.
pub proof fn lemma_palette_len(img: IffImage)
    requires
        img.wf(),
    ensures
        cmap_bytes(img.cmap.colors@).len() == 3 * img.cmap.colors@.len(),
        1 <= img.cmap.colors@.len() <= 255,
{
    lemma_cmap_len(img.cmap.colors@);
}

/// A palette size determines its number of bitplanes.
pub proof fn lemma_bitplane_count_unique(n: nat, a: nat, b: nat)
    requires
        is_bitplane_count(n, a),
        is_bitplane_count(n, b),
    ensures
        a == b,
{
    if a < b {
        if a < (b - 1) as nat {
            lemma_pow2_strictly_increases(a, (b - 1) as nat);
        }
    } else if b < a {
        if b < (a - 1) as nat {
            lemma_pow2_strictly_increases(b, (a - 1) as nat);
        }
    }
}

/// Converting the same bytes twice gives the same outcome: the same error, or
/// bitmaps with the same file bytes.
pub proof fn lemma_conversion_deterministic(
    b1: Seq<u8>,
    b2: Seq<u8>,
    r1: Result<IffImage, IffLoadError>,
    r2: Result<IffImage, IffLoadError>,
)
    requires
        b1 == b2,
        load_outcome(b1, r1),
        load_outcome(b2, r2),
    ensures
        r1 is Ok <==> r2 is Ok,
        r1 is Ok ==> r1->Ok_0.form_bytes() == r2->Ok_0.form_bytes(),
        r1 matches Err(IffLoadError::IffConvertError(e)) ==> r2 matches Err(
            IffLoadError::IffConvertError(f),
        ) && e == f,
{
    if r1 is Ok && decoded_png(b1) is Some {
        let v = decoded_png(b1)->Some_0;
        let i1 = r1->Ok_0;
        let i2 = r2->Ok_0;
        let colors = palette_colors(v.palette->Some_0);
        lemma_bitplane_count_unique(colors.len(), i1.bmhd.bitplanes as nat, i2.bmhd.bitplanes as nat);
        assert(i1.bmhd == i2.bmhd);
        assert forall|i: int| 0 <= i < i1.pixels@.len() implies i1.pixels@[i] == i2.pixels@[i] by {
            let c = crate::convert::palette_color(v.pixels, i);
            assert(is_first_match(colors, c, i1.pixels@[i] as int));
            assert(is_first_match(colors, c, i2.pixels@[i] as int));
        }
        assert(i1.pixels@ =~= i2.pixels@);
    }
}

} // verus!
