//! Decoded raster images as plain RGBA buffers, and their resizing.

use vstd::prelude::*;
use crate::text::{ascii_lower_chars, ascii_lower_seq, chars_of, ends_with, has_suffix};

verus! {

/// An RGBA image: `width × height` pixels of four bytes, row by row.
pub struct RgbaPixels {
    pub width: u32,
    pub height: u32,
    pub data: Vec<u8>,
}

/// The pixels `image::imageops::resize` (triangle filter) produces from a
/// `w × h` RGBA buffer at `nw × nh`.
pub uninterp spec fn resized_rgba(w: u32, h: u32, data: Seq<u8>, nw: u32, nh: u32) -> Seq<u8>;

/// Resizes a raw RGBA buffer; `None` when the buffer is shorter than
/// `w × h` pixels.
///
/// Trusted: `image::RgbaImage::from_raw` (which refuses a buffer shorter
/// than `4·w·h`) then `image::imageops::resize` with the triangle filter and
/// `into_raw`.  The result is named, and its length is that of an
/// `nw × nh` RGBA buffer, as `ImageBuffer::new` allocates it.  The resize
/// first scales the height into a `w × nh` buffer of four floats a pixel;
/// `ImageBuffer::new` panics when a buffer's length overflows `usize`, so
/// both sizes are required to fit.
#[verifier::external_body]
fn resize_rgba(w: u32, h: u32, data: Vec<u8>, nw: u32, nh: u32) -> (r: Option<Vec<u8>>)
    requires
        4 * (nw as int) * (nh as int) <= usize::MAX,
        4 * (w as int) * (nh as int) <= usize::MAX,
    ensures
        r is None <==> (data@.len() as int) < 4 * (w as int) * (h as int),
        r matches Some(v) ==> v@ == resized_rgba(w, h, data@, nw, nh) && v@.len() == 4 * (nw as int)
            * (nh as int),
{
    let img = image::RgbaImage::from_raw(w, h, data)?;
    Some(image::imageops::resize(&img, nw, nh, image::imageops::FilterType::Triangle).into_raw())
}

/// The image scaled to `nw × nh` pixels; `None` when its buffer is too short
/// for its size.
pub fn resize_pixels(img: &RgbaPixels, nw: u32, nh: u32) -> (r: Option<RgbaPixels>)
    requires
        4 * (nw as int) * (nh as int) <= usize::MAX,
        4 * (img.width as int) * (nh as int) <= usize::MAX,
    ensures
        r is None <==> (img.data@.len() as int) < 4 * (img.width as int) * (img.height as int),
        r matches Some(p) ==> p.width == nw && p.height == nh && p.data@ == resized_rgba(
            img.width,
            img.height,
            img.data@,
            nw,
            nh,
        ) && p.data@.len() == 4 * (nw as int) * (nh as int),
{
    match resize_rgba(img.width, img.height, img.data.clone(), nw, nh) {
        Some(v) => Some(RgbaPixels { width: nw, height: nh, data: v }),
        None => None,
    }
}


/// What `image::load_from_memory(data)` decodes, as RGBA: width, height and
/// pixels; `None` when the bytes are not an image the crate can read.
pub uninterp spec fn decoded_image(data: Seq<u8>) -> Option<(u32, u32, Seq<u8>)>;

/// Decodes an image file held in memory and converts it to RGBA.
///
/// Trusted: `image::load_from_memory`, then `into_rgba8`, `dimensions` and
/// `into_raw` to take the result apart.  The result is named (a failed
/// memory reservation inside a decoder, reported as an error, is taken not
/// to happen); the buffer holds at least the `4·w·h` bytes of its pixels,
/// as `ImageBuffer` keeps.
#[verifier::external_body]
fn load_rgba(data: &[u8]) -> (r: Option<RgbaPixels>)
    ensures
        match r {
            Some(p) => decoded_image(data@) == Some((p.width, p.height, p.data@)) && (p.data@.len()
                as int) >= 4 * (p.width as int) * (p.height as int),
            None => decoded_image(data@) is None,
        },
{
    image::load_from_memory(data).ok().map(
        |img| {
            let rgba = img.into_rgba8();
            let (width, height) = rgba.dimensions();
            RgbaPixels { width, height, data: rgba.into_raw() }
        },
    )
}

/// Decodes an image file (PNG, JPEG, WebP, BMP, …) into RGBA pixels;
/// `None` when it cannot be read.
pub fn decode_image(data: &[u8]) -> (r: Option<RgbaPixels>)
    ensures
        match r {
            Some(p) => decoded_image(data@) == Some((p.width, p.height, p.data@)) && (p.data@.len()
                as int) >= 4 * (p.width as int) * (p.height as int),
            None => decoded_image(data@) is None,
        },
{
    load_rgba(data)
}

/// The grid spacing used to sample an image's outline: a 48th of its
/// shorter side, at least one pixel.
pub open spec fn sample_step(w: u32, h: u32) -> int {
    let m = if w < h {
        w
    } else {
        h
    };
    if m / 48 > 1 {
        (m / 48) as int
    } else {
        1
    }
}

/// The alpha byte of pixel (`x`, `y`) of a `w`-wide RGBA buffer.
pub open spec fn alpha_at(d: Seq<u8>, w: int, x: int, y: int) -> u8 {
    d[(y * w + x) * 4 + 3]
}

/// The sample points of row `y` from column `x` on, every `step` pixels,
/// whose alpha exceeds 20.
pub open spec fn row_samples(d: Seq<u8>, w: int, y: int, step: int, x: int) -> Seq<(u32, u32)>
    decreases w + step - x,
{
    if step <= 0 || x >= w || x < 0 {
        Seq::empty()
    } else {
        let here: Seq<(u32, u32)> = if alpha_at(d, w, x, y) > 20 {
            seq![(x as u32, y as u32)]
        } else {
            Seq::empty()
        };
        here + row_samples(d, w, y, step, x + step)
    }
}

/// The sample points of the rows from `y` on, every `step` rows.
pub open spec fn grid_samples(d: Seq<u8>, w: int, h: int, step: int, y: int) -> Seq<(u32, u32)>
    decreases h + step - y,
{
    if step <= 0 || y >= h || y < 0 {
        Seq::empty()
    } else {
        row_samples(d, w, y, step, 0) + grid_samples(d, w, h, step, y + step)
    }
}

/// The opaque sample points of an image, row by row.
pub open spec fn opaque_points(img_w: u32, img_h: u32, d: Seq<u8>) -> Seq<(u32, u32)> {
    grid_samples(d, img_w as int, img_h as int, sample_step(img_w, img_h), 0)
}

/// Row `y` has a sample point from column `x` on (every `step` pixels)
/// whose alpha is at most 20.
pub open spec fn row_has_clear(d: Seq<u8>, w: int, y: int, step: int, x: int) -> bool
    decreases w + step - x,
{
    if step <= 0 || x >= w || x < 0 {
        false
    } else {
        alpha_at(d, w, x, y) <= 20 || row_has_clear(d, w, y, step, x + step)
    }
}

/// A row from `y` on (every `step` rows) has a transparent sample point.
pub open spec fn grid_has_clear(d: Seq<u8>, w: int, h: int, step: int, y: int) -> bool
    decreases h + step - y,
{
    if step <= 0 || y >= h || y < 0 {
        false
    } else {
        row_has_clear(d, w, y, step, 0) || grid_has_clear(d, w, h, step, y + step)
    }
}

/// Some sample point of the image is (nearly) transparent: the image has a
/// cut-out worth following.
pub open spec fn has_transparency(img_w: u32, img_h: u32, d: Seq<u8>) -> bool {
    grid_has_clear(d, img_w as int, img_h as int, sample_step(img_w, img_h), 0)
}

/// The pixels (`x`, `y`) on a grid of spacing `sample_step` whose alpha
/// exceeds 20, row by row.  `None` when the image has no meaningful
/// transparency (no sample point is transparent) or fewer than three
/// points are found: a plain box is used instead.
pub fn opaque_samples(img: &RgbaPixels) -> (r: Option<Vec<(u32, u32)>>)
    requires
        (img.data@.len() as int) >= 4 * (img.width as int) * (img.height as int),
    ensures
        match r {
            Some(v) => v@ == opaque_points(img.width, img.height, img.data@) && v@.len() >= 3
                && has_transparency(img.width, img.height, img.data@),
            None => opaque_points(img.width, img.height, img.data@).len() < 3 || !has_transparency(
                img.width,
                img.height,
                img.data@,
            ),
        },
{
    let w = img.width as u64;
    let h = img.height as u64;
    let m = if img.width < img.height {
        img.width
    } else {
        img.height
    };
    let step: u64 = if m / 48 > 1 {
        (m / 48) as u64
    } else {
        1
    };
    let ghost d = img.data@;
    let ghost total = grid_samples(d, w as int, h as int, step as int, 0);
    assert(step == sample_step(img.width, img.height));
    let mut out: Vec<(u32, u32)> = Vec::new();
    let mut clear = false;
    let mut y: u64 = 0;
    while y < h
        invariant
            (clear || grid_has_clear(d, w as int, h as int, step as int, y as int)) == grid_has_clear(
                d,
                w as int,
                h as int,
                step as int,
                0,
            ),
            w == img.width,
            h == img.height,
            d == img.data@,
            (d.len() as int) >= 4 * (w as int) * (h as int),
            1 <= step <= 4294967295,
            total == grid_samples(d, w as int, h as int, step as int, 0),
            out@ + grid_samples(d, w as int, h as int, step as int, y as int) == total,
            y <= h + step,
        decreases h + step - y,
    {
        let ghost row_total = row_samples(d, w as int, y as int, step as int, 0);
        let ghost out_before = out@;
        let ghost clear_before = clear;
        let mut x: u64 = 0;
        while x < w
            invariant
                (clear || row_has_clear(d, w as int, y as int, step as int, x as int)) == (clear_before
                    || row_has_clear(d, w as int, y as int, step as int, 0)),
                w == img.width,
                h == img.height,
                d == img.data@,
                y < h,
                (d.len() as int) >= 4 * (w as int) * (h as int),
                1 <= step <= 4294967295,
                row_total == row_samples(d, w as int, y as int, step as int, 0),
                out@ == out_before + (row_total.take(out@.len() - out_before.len())),
                out@.len() >= out_before.len(),
                row_total.take(out@.len() - out_before.len()) + row_samples(
                    d,
                    w as int,
                    y as int,
                    step as int,
                    x as int,
                ) == row_total,
                x <= w + step,
            decreases w + step - x,
        {
            assert((y as int) * (w as int) + (x as int) < (w as int) * (h as int)) by (nonlinear_arith)
                requires
                    y < h,
                    x < w,
            ;
            assert(4 * (w as int) * (h as int) == 4 * ((w as int) * (h as int))) by (nonlinear_arith);
            assert((y as int) * (w as int) <= (y as int) * (w as int) + (x as int));
            assert(img.data@.len() == img.data.len());
            assert(img.data.len() <= usize::MAX);
            let p: u64 = y * w + x;
            let idx: usize = (p * 4 + 3) as usize;
            assert(idx as int == (y * w + x) * 4 + 3);
            let ghost taken: int = out@.len() - out_before.len();
            let ghost rest = row_samples(d, w as int, y as int, step as int, x as int);
            if img.data[idx] <= 20 {
                clear = true;
            }
            if img.data[idx] > 20 {
                out.push((x as u32, y as u32));
                assert(rest[0] == (x as u32, y as u32));
                assert(row_total.take(taken + 1) =~= row_total.take(taken as int).push(rest[0]));
                assert(row_total.take(taken + 1) + row_samples(
                    d,
                    w as int,
                    y as int,
                    step as int,
                    x + step,
                ) =~= row_total);
            } else {
                assert(rest =~= row_samples(d, w as int, y as int, step as int, x + step));
            }
            x = x + step;
        }
        proof {
            let taken: int = out@.len() - out_before.len();
            assert(row_samples(d, w as int, y as int, step as int, x as int) =~= Seq::empty());
            assert(row_total.take(taken as int) =~= row_total);
            assert(out@ + grid_samples(d, w as int, h as int, step as int, y + step) =~= total);
        }
        y = y + step;
    }
    assert(grid_samples(d, w as int, h as int, step as int, y as int) =~= Seq::empty());
    assert(out@ =~= total);
    if out.len() < 3 || !clear {
        None
    } else {
        Some(out)
    }
}

/// How an image file is loaded, judged from its name.
#[derive(Clone, Copy, PartialEq, Eq, Structural, Debug)]
pub enum ImageSource {
    /// An animated GIF: decoded frame by frame.
    Gif,
    /// An SVG drawing: rasterised.
    Svg,
    /// Any other raster format; `may_have_alpha` is false for the formats
    /// that cannot carry transparency (JPEG, HDR, PPM, PGM, PBM).
    Raster { may_have_alpha: bool },
}

/// The source kind of a file name (extension compared case-insensitively).
pub open spec fn image_source_spec(path: Seq<char>) -> ImageSource {
    let lp = ascii_lower_seq(path);
    if has_suffix(lp, ".gif"@) {
        ImageSource::Gif
    } else if has_suffix(lp, ".svg"@) {
        ImageSource::Svg
    } else {
        ImageSource::Raster {
            may_have_alpha: !(has_suffix(lp, ".jpg"@) || has_suffix(lp, ".jpeg"@) || has_suffix(
                lp,
                ".hdr"@,
            ) || has_suffix(lp, ".ppm"@) || has_suffix(lp, ".pgm"@) || has_suffix(lp, ".pbm"@)),
        }
    }
}

/// The last four characters of a string agree with those of each of its
/// suffixes (as far as the suffix reaches).
proof fn lemma_suffix_tail(s: Seq<char>, e: Seq<char>)
    ensures
        has_suffix(s, e) && e.len() >= 1 ==> s[s.len() - 1] == e[e.len() - 1],
        has_suffix(s, e) && e.len() >= 2 ==> s[s.len() - 2] == e[e.len() - 2],
        has_suffix(s, e) && e.len() >= 3 ==> s[s.len() - 3] == e[e.len() - 3],
        has_suffix(s, e) && e.len() >= 4 ==> s[s.len() - 4] == e[e.len() - 4],
{
    if has_suffix(s, e) {
        let t = s.subrange(s.len() - e.len(), s.len() as int);
        assert(t == e);
        if e.len() >= 1 {
            assert(t[e.len() - 1] == s[s.len() - 1]);
        }
        if e.len() >= 2 {
            assert(t[e.len() - 2] == s[s.len() - 2]);
        }
        if e.len() >= 3 {
            assert(t[e.len() - 3] == s[s.len() - 3]);
        }
        if e.len() >= 4 {
            assert(t[e.len() - 4] == s[s.len() - 4]);
        }
    }
}

/// The name ends, ignoring ASCII case, in `ext` (written with its dot).
pub open spec fn has_extension(path: Seq<char>, ext: Seq<char>) -> bool {
    has_suffix(ascii_lower_seq(path), ext)
}

/// The raster formats that cannot carry transparency, by extension.
pub open spec fn is_opaque_format(path: Seq<char>) -> bool {
    ||| has_extension(path, ".jpg"@)
    ||| has_extension(path, ".jpeg"@)
    ||| has_extension(path, ".hdr"@)
    ||| has_extension(path, ".ppm"@)
    ||| has_extension(path, ".pgm"@)
    ||| has_extension(path, ".pbm"@)
}

/// Raster formats that may carry transparency, by extension.
pub open spec fn is_alpha_capable_format(path: Seq<char>) -> bool {
    ||| has_extension(path, ".png"@)
    ||| has_extension(path, ".webp"@)
    ||| has_extension(path, ".bmp"@)
    ||| has_extension(path, ".ico"@)
    ||| has_extension(path, ".tga"@)
    ||| has_extension(path, ".qoi"@)
    ||| has_extension(path, ".tiff"@)
    ||| has_extension(path, ".exr"@)
    ||| has_extension(path, ".dds"@)
}

/// GIFs are decoded as animations and SVGs rasterised; every other name is
/// a raster image, whose cut-out outline is followed unless its format
/// cannot hold transparency: exactly JPEG (.jpg, .jpeg), HDR, PPM, PGM and
/// PBM are loaded as opaque, while PNG, WebP, BMP, ICO, TGA, QOI, TIFF,
/// EXR and DDS may be transparent.
pub proof fn lemma_image_source_kinds(path: Seq<char>)
    ensures
        has_extension(path, ".gif"@) ==> image_source_spec(path) == ImageSource::Gif,
        has_extension(path, ".svg"@) ==> image_source_spec(path) == ImageSource::Svg,
        image_source_spec(path) is Raster <==> !has_extension(path, ".gif"@) && !has_extension(
            path,
            ".svg"@,
        ),
        image_source_spec(path) == (ImageSource::Raster { may_have_alpha: false }) <==> is_opaque_format(
            path,
        ),
        is_alpha_capable_format(path) ==> image_source_spec(path) == (ImageSource::Raster {
            may_have_alpha: true,
        }),
{
    reveal_strlit(".gif");
    reveal_strlit(".svg");
    reveal_strlit(".jpg");
    reveal_strlit(".jpeg");
    reveal_strlit(".hdr");
    reveal_strlit(".ppm");
    reveal_strlit(".pgm");
    reveal_strlit(".pbm");
    reveal_strlit(".png");
    reveal_strlit(".webp");
    reveal_strlit(".bmp");
    reveal_strlit(".ico");
    reveal_strlit(".tga");
    reveal_strlit(".qoi");
    reveal_strlit(".tiff");
    reveal_strlit(".exr");
    reveal_strlit(".dds");
    let lp = ascii_lower_seq(path);
    lemma_suffix_tail(lp, ".gif"@);
    lemma_suffix_tail(lp, ".svg"@);
    lemma_suffix_tail(lp, ".jpg"@);
    lemma_suffix_tail(lp, ".jpeg"@);
    lemma_suffix_tail(lp, ".hdr"@);
    lemma_suffix_tail(lp, ".ppm"@);
    lemma_suffix_tail(lp, ".pgm"@);
    lemma_suffix_tail(lp, ".pbm"@);
    lemma_suffix_tail(lp, ".png"@);
    lemma_suffix_tail(lp, ".webp"@);
    lemma_suffix_tail(lp, ".bmp"@);
    lemma_suffix_tail(lp, ".ico"@);
    lemma_suffix_tail(lp, ".tga"@);
    lemma_suffix_tail(lp, ".qoi"@);
    lemma_suffix_tail(lp, ".tiff"@);
    lemma_suffix_tail(lp, ".exr"@);
    lemma_suffix_tail(lp, ".dds"@);
}

/// How to load the image at `path`.
pub fn image_source(path: &str) -> (r: ImageSource)
    ensures
        r == image_source_spec(path@),
{
    let p = chars_of(path);
    let lp = ascii_lower_chars(p.as_slice());
    if ends_with(lp.as_slice(), chars_of(".gif").as_slice()) {
        ImageSource::Gif
    } else if ends_with(lp.as_slice(), chars_of(".svg").as_slice()) {
        ImageSource::Svg
    } else {
        let no_alpha = ends_with(lp.as_slice(), chars_of(".jpg").as_slice()) || ends_with(
            lp.as_slice(),
            chars_of(".jpeg").as_slice(),
        ) || ends_with(lp.as_slice(), chars_of(".hdr").as_slice()) || ends_with(
            lp.as_slice(),
            chars_of(".ppm").as_slice(),
        ) || ends_with(lp.as_slice(), chars_of(".pgm").as_slice()) || ends_with(
            lp.as_slice(),
            chars_of(".pbm").as_slice(),
        );
        ImageSource::Raster { may_have_alpha: !no_alpha }
    }
}

/// The six-byte signatures of a GIF file.
pub open spec fn gif_signature(data: Seq<u8>) -> bool {
    data.len() >= 6 && (data.subrange(0, 6) == seq![71u8, 73, 70, 56, 55, 97] || data.subrange(0, 6)
        == seq![71u8, 73, 70, 56, 57, 97])
}

/// Downloaded bytes are treated as a GIF when the name ends in `.gif`
/// (case-sensitive) or the bytes start with `GIF87a` or `GIF89a`.
pub open spec fn is_gif_download_spec(name: Seq<char>, data: Seq<u8>) -> bool {
    has_suffix(name, ".gif"@) || gif_signature(data)
}

pub fn is_gif_download(name: &str, data: &[u8]) -> (r: bool)
    ensures
        r == is_gif_download_spec(name@, data@),
{
    let n = chars_of(name);
    if ends_with(n.as_slice(), chars_of(".gif").as_slice()) {
        return true;
    }
    if data.len() < 6 {
        return false;
    }
    let head = data[0] == 71 && data[1] == 73 && data[2] == 70 && data[3] == 56 && data[5] == 97;
    let r = head && (data[4] == 55 || data[4] == 57);
    assert(r == gif_signature(data@)) by {
        if r {
            if data[4] == 55 {
                assert(data@.subrange(0, 6) =~= seq![71u8, 73, 70, 56, 55, 97]);
            } else {
                assert(data@.subrange(0, 6) =~= seq![71u8, 73, 70, 56, 57, 97]);
            }
        } else {
            if data@.subrange(0, 6) == seq![71u8, 73, 70, 56, 55, 97] {
                assert(data@.subrange(0, 6)[4] == 55);
                assert(data@.subrange(0, 6)[0] == 71);
                assert(data@.subrange(0, 6)[1] == 73);
                assert(data@.subrange(0, 6)[2] == 70);
                assert(data@.subrange(0, 6)[3] == 56);
                assert(data@.subrange(0, 6)[5] == 97);
            }
            if data@.subrange(0, 6) == seq![71u8, 73, 70, 56, 57, 97] {
                assert(data@.subrange(0, 6)[4] == 57);
                assert(data@.subrange(0, 6)[0] == 71);
                assert(data@.subrange(0, 6)[1] == 73);
                assert(data@.subrange(0, 6)[2] == 70);
                assert(data@.subrange(0, 6)[3] == 56);
                assert(data@.subrange(0, 6)[5] == 97);
            }
        }
    }
    r
}

} // verus!
