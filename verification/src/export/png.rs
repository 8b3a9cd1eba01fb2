//! A figure as a bitmap: how large it may be, where its shapes and letters land, and the file it
//! becomes, with the resolution recorded in it so a word processor places it at the size it was
//! asked for.
use vstd::prelude::*;

use crate::export::rounded;
use crate::export::svg::Frame;
use crate::text::{dec, push_dec};

verus! {

broadcast use vstd::seq_lib::group_seq_properties;

/// The most pixels a canvas may have. Compositing takes sixteen bytes a pixel, so this is about
/// half a gigabyte of working buffer: a 200 x 150 mm figure at 600 dpi, well past what a page
/// can show.
pub const MAX_PIXELS: u64 = 30_000_000;

/// A canvas so large it would exhaust memory before it drew anything.
#[derive(Clone, Copy, PartialEq, Eq, Structural, Debug)]
pub struct TooLarge {
    pub width: u64,
    pub height: u64,
}

impl TooLarge {
    pub fn message(self) -> (r: String)
        ensures
            r@ == dec(self.width as nat) + "x"@ + dec(self.height as nat)
                + " pixels is too large to render -- reduce the size or the resolution"@,
    {
        let mut out = String::new();
        push_dec(&mut out, self.width);
        out.append("x");
        push_dec(&mut out, self.height);
        out.append(" pixels is too large to render -- reduce the size or the resolution");
        out
    }
}

/// A length of hundredths of a unit in pixels, of which there are `num` to `den` units: at least
/// one.
pub open spec fn pixels_spec(size: int, num: int, den: int) -> int {
    let n = rounded(size * num, 100 * den);
    if n < 1 {
        1
    } else {
        n
    }
}

fn pixels(size: u64, num: u32, den: u32) -> (r: u64)
    requires
        den > 0,
        size <= 0xFFFF_FFFF,
    ensures
        r == pixels_spec(size as int, num as int, den as int),
{
    proof {
        assert(0 <= size * num <= 0xFFFF_FFFF * 0xFFFF_FFFF) by (nonlinear_arith)
            requires
                0 <= size <= 0xFFFF_FFFF,
                0 <= num <= 0xFFFF_FFFF,
        ;
        let x = 2 * (size * num) + 100 * den;
        vstd::arithmetic::div_mod::lemma_div_nonincreasing(x, 200 * den);
        vstd::arithmetic::div_mod::lemma_div_pos_is_pos(x, 200 * den);
        vstd::arithmetic::div_mod::lemma_fundamental_div_mod(x, 200 * den);
        vstd::arithmetic::div_mod::lemma_mod_bound(x, 200 * den);
        let q = x / (200 * den);
        assert(q <= 0xFFFF_FFFF_FFFF_FFFF) by (nonlinear_arith)
            requires
                x == (200 * den) * q + x % (200 * den),
                0 <= x % (200 * den),
                x <= 2 * (0xFFFF_FFFF * 0xFFFF_FFFF) + 100 * den,
                den > 0,
        ;
    }
    let n: u128 = (2 * (size as u128 * num as u128) + 100 * den as u128) / (200 * den as u128);
    if n < 1 {
        1
    } else {
        n as u64
    }
}

/// The size of a canvas for a figure, refused where it would be too large to render.
pub fn canvas_size(size: (u64, u64), num: u32, den: u32) -> (r: Result<(u32, u32), TooLarge>)
    requires
        den > 0,
        size.0 <= 0xFFFF_FFFF,
        size.1 <= 0xFFFF_FFFF,
    ensures
        ({
            let w = pixels_spec(size.0 as int, num as int, den as int);
            let h = pixels_spec(size.1 as int, num as int, den as int);
            match r {
                Ok(size) => size.0 == w && size.1 == h && w * h <= MAX_PIXELS,
                Err(e) => e.width == w && e.height == h && w * h > MAX_PIXELS,
            }
        }),
{
    let w = pixels(size.0, num, den);
    let h = pixels(size.1, num, den);
    proof {
        assert(0 <= w * h <= 0xFFFF_FFFF_FFFF_FFFF * 0xFFFF_FFFF_FFFF_FFFF) by (nonlinear_arith)
            requires
                0 <= w <= 0xFFFF_FFFF_FFFF_FFFF,
                0 <= h <= 0xFFFF_FFFF_FFFF_FFFF,
        ;
    }
    if w as u128 * h as u128 > MAX_PIXELS as u128 {
        return Err(TooLarge { width: w, height: h });
    }
    proof {
        assert(w <= w * h && h <= w * h) by (nonlinear_arith)
            requires
                1 <= w,
                1 <= h,
        ;
    }
    Ok((w as u32, h as u32))
}

/// The rows and columns that a shape can touch: those of the pixels that its rectangle, cut to
/// the clip, reaches into. The lengths are hundredths of a pixel. Each pair is a first and one
/// past the last.
pub open spec fn touched(from: int, to: int, size: int) -> (int, int) {
    (
        if from < 0 {
            0
        } else {
            from / 100
        },
        if to < 0 {
            0
        } else if (to + 99) / 100 > size {
            size
        } else {
            (to + 99) / 100
        },
    )
}

fn touched_by(from: i32, to: i32, size: u32) -> (r: (u32, u32))
    ensures
        (r.0 as int, r.1 as int) == touched(from as int, to as int, size as int),
{
    let first: u32 = if from < 0 {
        0
    } else {
        (from / 100) as u32
    };
    let last: u32 = if to < 0 {
        0
    } else {
        let n: u32 = ((to as i64 + 99) / 100) as u32;
        if n > size {
            size
        } else {
            n
        }
    };
    (first, last)
}

/// The pixels that a shape can touch, if any.
pub fn bounds(rect: Frame, clip: Frame, width: u32, height: u32) -> (r: Option<
    (u32, u32, u32, u32),
>)
    ensures
        ({
            let left = if rect.left >= clip.left {
                rect.left as int
            } else {
                clip.left as int
            };
            let top = if rect.top >= clip.top {
                rect.top as int
            } else {
                clip.top as int
            };
            let right = if rect.right <= clip.right {
                rect.right as int
            } else {
                clip.right as int
            };
            let bottom = if rect.bottom <= clip.bottom {
                rect.bottom as int
            } else {
                clip.bottom as int
            };
            let (x0, x1) = touched(left, right, width as int);
            let (y0, y1) = touched(top, bottom, height as int);
            match r {
                Some((a, b, c, d)) => (a as int, b as int, c as int, d as int) == (x0, y0, x1, y1)
                    && x0 < x1 && y0 < y1,
                None => x0 >= x1 || y0 >= y1,
            }
        }),
{
    let left = if rect.left >= clip.left {
        rect.left
    } else {
        clip.left
    };
    let top = if rect.top >= clip.top {
        rect.top
    } else {
        clip.top
    };
    let right = if rect.right <= clip.right {
        rect.right
    } else {
        clip.right
    };
    let bottom = if rect.bottom <= clip.bottom {
        rect.bottom
    } else {
        clip.bottom
    };
    let (x0, x1) = touched_by(left, right, width);
    let (y0, y1) = touched_by(top, bottom, height);
    if x0 < x1 && y0 < y1 {
        Some((x0, y0, x1, y1))
    } else {
        None
    }
}

/// A pixel that a stretch reaches into is among those it touches, and no other is.
pub proof fn every_pixel_reached_is_touched(from: int, to: int, size: int, x: int)
    requires
        from < to,
        0 <= x < size,
    ensures
        ({
            let (first, end) = touched(from, to, size);
            first <= x < end <==> from < 100 * (x + 1) && to > 100 * x
        }),
{
}

/// Where one texel of a glyph lands. The glyph was rasterized at the canvas' own scale, so one
/// texel is one pixel and nothing is resampled. `base` is the top left of the text's box, or its
/// bottom left for a text turned a quarter turn anticlockwise, whose box is as tall as the text
/// is wide.
pub fn texel_target(base: (i32, i32), glyph: (i32, i32), texel: (u32, u32), rotated: bool) -> (r: (
    i64,
    i64,
))
    ensures
        (r.0 as int, r.1 as int) == target(base, glyph, texel, rotated),
{
    let x: i64 = glyph.0 as i64 + texel.0 as i64;
    let y: i64 = glyph.1 as i64 + texel.1 as i64;
    if rotated {
        (base.0 as i64 + y, base.1 as i64 - x - 1)
    } else {
        (base.0 as i64 + x, base.1 as i64 + y)
    }
}

/// Where a texel lands, as laws speak of it.
pub open spec fn target(
    base: (i32, i32),
    glyph: (i32, i32),
    texel: (u32, u32),
    rotated: bool,
) -> (int, int) {
    let x = glyph.0 + texel.0;
    let y = glyph.1 + texel.1;
    if rotated {
        (base.0 + y, base.1 - x - 1)
    } else {
        (base.0 + x, base.1 + y)
    }
}

/// No two texels of a glyph land on one pixel, however it is turned.
pub proof fn texels_do_not_overlap(
    base: (i32, i32),
    glyph: (i32, i32),
    a: (u32, u32),
    b: (u32, u32),
    rotated: bool,
)
    requires
        a != b,
    ensures
        target(base, glyph, a, rotated) != target(base, glyph, b, rotated),
{
}

/// A text turned a quarter turn stays in a box as tall as it is wide and as wide as it is tall.
pub proof fn a_turned_text_stays_in_its_box(
    base: (i32, i32),
    glyph: (i32, i32),
    texel: (u32, u32),
    width: int,
    height: int,
)
    requires
        0 <= glyph.0 + texel.0 < width,
        0 <= glyph.1 + texel.1 < height,
    ensures
        ({
            let (x, y) = target(base, glyph, texel, true);
            base.0 <= x < base.0 + height && base.1 - width <= y < base.1
        }),
{
}

/// The pixel of a canvas at a place, where there is one and the clip, in hundredths of a pixel,
/// holds its middle.
pub fn pixel_at(place: (i64, i64), width: u32, height: u32, clip: Frame) -> (r: Option<(u32, u32)>)
    ensures
        ({
            let (x, y) = place;
            let inside = 0 <= x < width && 0 <= y < height && clip.left <= 100 * x + 50
                <= clip.right && clip.top <= 100 * y + 50 <= clip.bottom;
            match r {
                Some((a, b)) => inside && a == x && b == y,
                None => !inside,
            }
        }),
{
    let (x, y) = place;
    if x < 0 || y < 0 || x >= width as i64 || y >= height as i64 {
        return None;
    }
    let cx: i64 = 100 * x + 50;
    let cy: i64 = 100 * y + 50;
    if (clip.left as i64) <= cx && cx <= clip.right as i64 && (clip.top as i64) <= cy && cy
        <= clip.bottom as i64 {
        Some((x as u32, y as u32))
    } else {
        None
    }
}

/// One bit of the checksum's division.
pub open spec fn crc_bit(crc: u32) -> u32 {
    if crc & 1 != 0 {
        (crc >> 1) ^ 0xEDB8_8320
    } else {
        crc >> 1
    }
}

/// Several bits of the checksum's division.
pub open spec fn crc_bits(crc: u32, n: nat) -> u32
    decreases n,
{
    if n == 0 {
        crc
    } else {
        crc_bit(crc_bits(crc, (n - 1) as nat))
    }
}

/// The remainder after the first `n` bytes.
pub open spec fn crc_run(data: Seq<u8>, n: nat) -> u32
    decreases n,
{
    if n == 0 {
        0xFFFF_FFFF
    } else {
        crc_bits(crc_run(data, (n - 1) as nat) ^ (data[n - 1] as u32), 8)
    }
}

/// The checksum of a PNG chunk: CRC-32.
pub open spec fn crc32_spec(data: Seq<u8>) -> u32 {
    crc_run(data, data.len()) ^ 0xFFFF_FFFF
}

/// The checksum of a PNG chunk.
pub fn crc32(data: &[u8]) -> (r: u32)
    ensures
        r == crc32_spec(data@),
{
    let mut crc: u32 = 0xFFFF_FFFF;
    let mut i: usize = 0;
    while i < data.len()
        invariant
            i <= data@.len(),
            crc == crc_run(data@, i as nat),
        decreases data@.len() - i,
    {
        crc = crc ^ data[i] as u32;
        let ghost start = crc;
        let mut k: u8 = 0;
        while k < 8
            invariant
                k <= 8,
                crc == crc_bits(start, k as nat),
            decreases 8 - k,
        {
            crc =
            if crc & 1 != 0 {
                (crc >> 1) ^ 0xEDB8_8320
            } else {
                crc >> 1
            };
            k += 1;
        }
        i += 1;
    }
    crc ^ 0xFFFF_FFFF
}

/// A number as four bytes, the most significant first.
pub open spec fn be32(n: u32) -> Seq<u8> {
    seq![
        (n / 0x100_0000) as u8,
        (n / 0x1_0000 % 0x100) as u8,
        (n / 0x100 % 0x100) as u8,
        (n % 0x100) as u8,
    ]
}

fn push_be32(out: &mut Vec<u8>, n: u32)
    ensures
        final(out)@ == old(out)@ + be32(n),
{
    let ghost before = out@;
    out.push((n / 0x100_0000) as u8);
    out.push((n / 0x1_0000 % 0x100) as u8);
    out.push((n / 0x100 % 0x100) as u8);
    out.push((n % 0x100) as u8);
    assert(out@ =~= before + be32(n));
}

/// Where a PNG's header ends: its signature, and the length, type, data and checksum of its
/// first chunk.
pub const HEADER_END: usize = 33;

/// Whether bytes start as a PNG does: with a header chunk behind the signature.
pub open spec fn has_header(png: Seq<u8>) -> bool {
    png.len() >= HEADER_END && png[12] == 0x49 && png[13] == 0x48 && png[14] == 0x44 && png[15]
        == 0x52
}

/// Dots per inch, in hundredths, as whole pixels per metre: at least one.
pub open spec fn per_metre_spec(dpi: int) -> int {
    let n = rounded(dpi * 3_937_007_874, 10_000_000_000);
    if n < 1 {
        1
    } else if n > u32::MAX {
        u32::MAX as int
    } else {
        n
    }
}

fn per_metre(dpi: u32) -> (r: u32)
    ensures
        r == per_metre_spec(dpi as int),
{
    let n: u128 = (2 * (dpi as u128 * 3_937_007_874) + 10_000_000_000) / 20_000_000_000;
    if n < 1 {
        1
    } else if n > u32::MAX as u128 {
        u32::MAX
    } else {
        n as u32
    }
}

/// The type and data of the chunk that gives the physical size of a pixel.
pub open spec fn phys_body(ppm: u32) -> Seq<u8> {
    seq![0x70u8, 0x48, 0x59, 0x73] + be32(ppm) + be32(ppm) + seq![1u8]
}

/// The chunk that gives the physical size of a pixel.
pub open spec fn phys_chunk(ppm: u32) -> Seq<u8> {
    be32(9) + phys_body(ppm) + be32(crc32_spec(phys_body(ppm)))
}

/// A PNG with its resolution recorded behind the header; anything else as it was.
pub open spec fn with_dpi_spec(png: Seq<u8>, dpi: u32) -> Seq<u8> {
    if !has_header(png) || dpi == 0 {
        png
    } else {
        png.take(HEADER_END as int) + phys_chunk(per_metre_spec(dpi as int) as u32) + png.skip(
            HEADER_END as int,
        )
    }
}

/// Records the resolution in a PNG. Without it a 300 dpi figure is a very large picture rather
/// than a small sharp one: a word processor has nothing to scale it by but its own guess.
pub fn with_dpi(png: Vec<u8>, dpi: u32) -> (r: Vec<u8>)
    ensures
        r@ == with_dpi_spec(png@, dpi),
{
    if png.len() < HEADER_END || png[12] != 0x49 || png[13] != 0x48 || png[14] != 0x44 || png[15]
        != 0x52 || dpi == 0 {
        return png;
    }
    let ppm = per_metre(dpi);
    let mut body: Vec<u8> = Vec::new();
    body.push(0x70);
    body.push(0x48);
    body.push(0x59);
    body.push(0x73);
    assert(body@ =~= seq![0x70u8, 0x48, 0x59, 0x73]);
    push_be32(&mut body, ppm);
    push_be32(&mut body, ppm);
    body.push(1);
    assert(body@ =~= phys_body(ppm));
    let crc = crc32(body.as_slice());
    let mut out: Vec<u8> = Vec::new();
    copy_bytes(&mut out, &png, 0, HEADER_END);
    let ghost head = out@;
    push_be32(&mut out, 9);
    let n: usize = body.len();
    copy_bytes(&mut out, &body, 0, n);
    push_be32(&mut out, crc);
    copy_bytes(&mut out, &png, HEADER_END, png.len());
    proof {
        assert(head =~= png@.take(HEADER_END as int));
        assert(body@.subrange(0, n as int) =~= body@);
        assert(out@ =~= with_dpi_spec(png@, dpi));
    }
    out
}

fn copy_bytes(out: &mut Vec<u8>, from: &Vec<u8>, start: usize, end: usize)
    requires
        start <= end <= from@.len(),
    ensures
        final(out)@ == old(out)@ + from@.subrange(start as int, end as int),
{
    let ghost before = out@;
    let mut i: usize = start;
    while i < end
        invariant
            start <= i <= end <= from@.len(),
            out@ == before + from@.subrange(start as int, i as int),
        decreases end - i,
    {
        out.push(from[i]);
        assert(out@ =~= before + from@.subrange(start as int, i + 1));
        i += 1;
    }
}

/// Recording the resolution leaves the picture alone: what was there before the chunk and after
/// it is what there was, and the chunk says the resolution.
pub proof fn only_the_resolution_is_added(png: Seq<u8>, dpi: u32)
    requires
        has_header(png),
        dpi > 0,
    ensures
        ({
            let r = with_dpi_spec(png, dpi);
            let ppm = per_metre_spec(dpi as int) as u32;
            &&& r.len() == png.len() + 21
            &&& r.take(33) == png.take(33)
            &&& r.skip(54) == png.skip(33)
            &&& r.subrange(37, 41) == seq![0x70u8, 0x48, 0x59, 0x73]
            &&& r.subrange(41, 45) == be32(ppm)
            &&& r.subrange(45, 49) == be32(ppm)
        }),
{
    let r = with_dpi_spec(png, dpi);
    let ppm = per_metre_spec(dpi as int) as u32;
    assert(r.take(33) =~= png.take(33));
    assert(r.skip(54) =~= png.skip(33));
    assert(r.subrange(37, 41) =~= seq![0x70u8, 0x48, 0x59, 0x73]);
    assert(r.subrange(41, 45) =~= be32(ppm));
    assert(r.subrange(45, 49) =~= be32(ppm));
}

/// The file that a picture of four bytes to the pixel becomes, none where it cannot be encoded.
pub uninterp spec fn encoded_picture(width: u32, height: u32, rgba: Seq<u8>) -> Option<Seq<u8>>;

/// Bytes, as contracts speak of them.
pub open spec fn bytes_view(r: Option<Vec<u8>>) -> Option<Seq<u8>> {
    match r {
        Some(bytes) => Some(bytes@),
        None => None,
    }
}

/// `image::RgbaImage::from_raw` and its `write_to` as a PNG: the file that a picture becomes.
/// What is in it is left to the name [`encoded_picture`]; it starts with the signature and the
/// header chunk, and there is none where the pixels are too few for the size.
#[verifier::external_body]
fn encode_picture(width: u32, height: u32, rgba: Vec<u8>) -> (r: Option<Vec<u8>>)
    ensures
        bytes_view(r) == encoded_picture(width, height, rgba@),
        r is Some ==> has_header(r.unwrap()@) && 4 * width * height <= rgba@.len(),
{
    let picture = image::RgbaImage::from_raw(width, height, rgba)?;
    let mut file = std::io::Cursor::new(Vec::new());
    picture.write_to(&mut file, image::ImageFormat::Png).ok()?;
    Some(file.into_inner())
}

/// Why there is no PNG.
#[derive(Clone, Copy, PartialEq, Eq, Structural, Debug)]
pub enum PngError {
    /// The pixels are too few for the size.
    Mismatch,
    /// The encoder failed.
    Encoder,
}

/// The PNG file of a picture, with its resolution in it.
pub fn into_png(width: u32, height: u32, rgba: Vec<u8>, dpi: u32) -> (r: Result<Vec<u8>, PngError>)
    ensures
        r == Err::<Vec<u8>, PngError>(PngError::Mismatch) <==> rgba@.len() < 4 * width * height,
        r == Err::<Vec<u8>, PngError>(PngError::Encoder) <==> rgba@.len() >= 4 * width * height
            && encoded_picture(width, height, rgba@) is None,
        match r {
            Ok(png) => encoded_picture(width, height, rgba@) is Some && png@ == with_dpi_spec(
                encoded_picture(width, height, rgba@).unwrap(),
                dpi,
            ) && has_header(encoded_picture(width, height, rgba@).unwrap()),
            Err(_) => true,
        },
{
    proof {
        assert(0 <= 4 * width * height <= 4 * 0xFFFF_FFFF * 0xFFFF_FFFF) by (nonlinear_arith)
            requires
                0 <= width <= 0xFFFF_FFFF,
                0 <= height <= 0xFFFF_FFFF,
        ;
        assert(0 <= 4 * width <= 4 * 0xFFFF_FFFF);
    }
    if (rgba.len() as u128) < 4 * width as u128 * height as u128 {
        return Err(PngError::Mismatch);
    }
    match encode_picture(width, height, rgba) {
        Some(png) => Ok(with_dpi(png, dpi)),
        None => Err(PngError::Encoder),
    }
}

} // verus!
