//! Animated GIFs: decoding frame by frame, painting each frame over the
//! logical screen, and the display time of each frame.

use vstd::prelude::*;
use crate::images::{resize_pixels, resized_rgba, RgbaPixels};

verus! {

/// A GIF being decoded from memory, frame after frame.  The gif crate's
/// decoder type cannot be declared to Verus (its reader parameter is bound
/// by `std::io::Read`), so it is held here, out of Verus's sight, like the
/// contents of a collection; `gif_pending` and `gif_stream_screen` name
/// what it holds, and the functions below are the only way to reach it.
#[verifier::external_body]
pub struct GifStream {
    decoder: gif::Decoder<std::io::Cursor<Vec<u8>>>,
}

/// One decoded frame: its delay (in units of 10 ms), its placement on the
/// logical screen and its RGBA pixels, row by row.
pub struct GifFrame {
    pub delay: u16,
    pub left: u16,
    pub top: u16,
    pub width: u16,
    pub height: u16,
    pub buffer: Vec<u8>,
}

/// What a frame holds, as values.
pub struct FrameView {
    pub delay: u16,
    pub left: u16,
    pub top: u16,
    pub width: u16,
    pub height: u16,
    pub buffer: Seq<u8>,
}

impl View for GifFrame {
    type V = FrameView;

    open spec fn view(&self) -> FrameView {
        FrameView {
            delay: self.delay,
            left: self.left,
            top: self.top,
            width: self.width,
            height: self.height,
            buffer: self.buffer@,
        }
    }
}

/// The views of a sequence of frames.
pub open spec fn frame_views(fs: Seq<GifFrame>) -> Seq<FrameView> {
    fs.map_values(|f: GifFrame| f@)
}

/// Whether the gif crate's `read_info` (default options, RGBA output)
/// accepts `data` as the start of a GIF.
pub uninterp spec fn gif_accepts(data: Seq<u8>) -> bool;

/// The frames the gif crate's decoder, opened on `data` as `gif_open`
/// does, delivers one after another before the first call of
/// `read_next_frame` that delivers none (the end of the image or a
/// decoding error).
pub uninterp spec fn gif_frames(data: Seq<u8>) -> Seq<FrameView>;

/// The logical screen size (width, height) that the header of `data`
/// gives.
pub uninterp spec fn gif_screen(data: Seq<u8>) -> (u16, u16);

/// The frames an open decoder still delivers, one per call of
/// `read_next_frame`, before its first call that delivers none.
pub uninterp spec fn gif_pending(s: GifStream) -> Seq<FrameView>;

/// The logical screen size (width, height) an open decoder reports.
pub uninterp spec fn gif_stream_screen(s: GifStream) -> (u16, u16);

/// Opens a GIF held in memory, with every frame expanded to RGBA; `None`
/// when its header is not accepted.
///
/// Trusted: `gif::DecodeOptions::new`, `set_color_output(RGBA)` and
/// `read_info` on a cursor over a copy of `data`, the error mapped to
/// `None`.  The decoder reads nothing but `data`, so whether the header is
/// accepted, the screen size and the frames still to come depend on the
/// bytes alone and are named (a failed memory reservation, which the crate
/// reports as an error, is taken not to happen).
#[verifier::external_body]
fn gif_open(data: &[u8]) -> (r: Option<GifStream>)
    ensures
        r is Some <==> gif_accepts(data@),
        r matches Some(s) ==> gif_pending(s) == gif_frames(data@) && gif_stream_screen(s)
            == gif_screen(data@),
{
    let mut options = gif::DecodeOptions::new();
    options.set_color_output(gif::ColorOutput::RGBA);
    let decoder = options.read_info(std::io::Cursor::new(data.to_vec())).ok()?;
    Some(GifStream { decoder })
}

/// Width of the logical screen.
///
/// Trusted: `gif::Decoder::width`, the width read from the header.
#[verifier::external_body]
fn gif_width(stream: &GifStream) -> (r: u16)
    ensures
        r == gif_stream_screen(*stream).0,
{
    stream.decoder.width()
}

/// Height of the logical screen.
///
/// Trusted: `gif::Decoder::height`, the height read from the header.
#[verifier::external_body]
fn gif_height(stream: &GifStream) -> (r: u16)
    ensures
        r == gif_stream_screen(*stream).1,
{
    stream.decoder.height()
}

/// The next frame, `None` at the end of the image or on a decoding error.
///
/// Trusted: `gif::Decoder::read_next_frame`, its fields copied into a
/// `GifFrame`.  It delivers the first pending frame and the rest stay
/// pending; with none pending it delivers nothing.  The screen size read
/// from the header does not change.
#[verifier::external_body]
fn gif_next_frame(stream: &mut GifStream) -> (r: Option<GifFrame>)
    ensures
        gif_stream_screen(*final(stream)) == gif_stream_screen(*old(stream)),
        gif_pending(*old(stream)).len() > 0 ==> (r matches Some(f) && f@ == gif_pending(
            *old(stream),
        )[0] && gif_pending(*final(stream)) == gif_pending(*old(stream)).drop_first()),
        gif_pending(*old(stream)).len() == 0 ==> r is None,
{
    match stream.decoder.read_next_frame() {
        Ok(Some(f)) => Some(
            GifFrame {
                delay: f.delay,
                left: f.left,
                top: f.top,
                width: f.width,
                height: f.height,
                buffer: f.buffer.to_vec(),
            },
        ),
        _ => None,
    }
}

/// How long a frame is shown, in milliseconds: its delay, at least two
/// hundredths, times ten, held at 65535 where the product does not fit in
/// 16 bits (delays of 6554 hundredths and more), so that a long delay
/// never turns into a zero one.
pub open spec fn frame_delay_ms_spec(delay: u16) -> u16 {
    let d = if delay < 2 {
        2u16
    } else {
        delay
    };
    if d * 10 > u16::MAX {
        u16::MAX
    } else {
        (d * 10) as u16
    }
}

pub fn frame_delay_ms(delay: u16) -> (r: u16)
    ensures
        r == frame_delay_ms_spec(delay),
{
    let d = if delay < 2 {
        2u16
    } else {
        delay
    };
    if d > 6553 {
        u16::MAX
    } else {
        d * 10
    }
}

/// Where pixel (`row`, `col`) of a frame is read from in its buffer.
pub open spec fn src_index(f: FrameView, row: int, col: int) -> int {
    (row * f.width + col) * 4
}

/// Where pixel (`row`, `col`) of a frame lands on a canvas `cw` pixels wide.
pub open spec fn dst_index(f: FrameView, cw: int, row: int, col: int) -> int {
    ((f.top + row) * cw + f.left + col) * 4
}

/// One pixel of a frame painted over the canvas: copied when both its
/// source and its destination lie within their buffers and it is not fully
/// transparent.  (Positions are never negative for the rows, columns and
/// widths that occur.)
pub open spec fn paint_pixel(c: Seq<u8>, f: FrameView, cw: int, row: int, col: int) -> Seq<u8> {
    let s = src_index(f, row, col);
    let d = dst_index(f, cw, row, col);
    if 0 <= d && d + 3 < c.len() && 0 <= s && s + 3 < f.buffer.len() && f.buffer[s + 3] > 0 {
        c.update(d, f.buffer[s]).update(d + 1, f.buffer[s + 1]).update(d + 2, f.buffer[s + 2]).update(
            d + 3,
            f.buffer[s + 3],
        )
    } else {
        c
    }
}

/// The first `k` pixels of row `row` painted, left to right.
pub open spec fn paint_row(c: Seq<u8>, f: FrameView, cw: int, row: int, k: nat) -> Seq<u8>
    decreases k,
{
    if k == 0 {
        c
    } else {
        paint_pixel(paint_row(c, f, cw, row, (k - 1) as nat), f, cw, row, k - 1)
    }
}

/// The first `r` rows painted, top to bottom.
pub open spec fn paint_rows(c: Seq<u8>, f: FrameView, cw: int, r: nat) -> Seq<u8>
    decreases r,
{
    if r == 0 {
        c
    } else {
        paint_row(paint_rows(c, f, cw, (r - 1) as nat), f, cw, r - 1, f.width as nat)
    }
}

/// The canvas after a whole frame is painted over it.
pub open spec fn composite_spec(c: Seq<u8>, f: FrameView, cw: int) -> Seq<u8> {
    paint_rows(c, f, cw, f.height as nat)
}

proof fn lemma_paint_pixel_len(c: Seq<u8>, f: FrameView, cw: int, row: int, col: int)
    ensures
        paint_pixel(c, f, cw, row, col).len() == c.len(),
{
}

proof fn lemma_paint_len(c: Seq<u8>, f: FrameView, cw: int, row: int, k: nat)
    ensures
        paint_row(c, f, cw, row, k).len() == c.len(),
    decreases k,
{
    if k > 0 {
        lemma_paint_len(c, f, cw, row, (k - 1) as nat);
        lemma_paint_pixel_len(paint_row(c, f, cw, row, (k - 1) as nat), f, cw, row, k - 1);
    }
}

proof fn lemma_paint_rows_len(c: Seq<u8>, f: FrameView, cw: int, r: nat)
    ensures
        paint_rows(c, f, cw, r).len() == c.len(),
    decreases r,
{
    if r > 0 {
        lemma_paint_rows_len(c, f, cw, (r - 1) as nat);
        lemma_paint_len(paint_rows(c, f, cw, (r - 1) as nat), f, cw, r - 1, f.width as nat);
    }
}

/// The alpha byte of pixel number `p` of a frame's buffer.
pub open spec fn frame_alpha(f: FrameView, p: int) -> u8 {
    f.buffer[4 * p + 3]
}

/// Every pixel of the frame is fully transparent.
pub open spec fn fully_transparent(f: FrameView) -> bool {
    forall|p: int| 0 <= p && 4 * p + 3 < f.buffer.len() ==> #[trigger] frame_alpha(f, p) == 0
}

proof fn lemma_transparent_row(c: Seq<u8>, f: FrameView, cw: int, row: int, k: nat)
    requires
        fully_transparent(f),
        row >= 0,
    ensures
        paint_row(c, f, cw, row, k) == c,
    decreases k,
{
    if k > 0 {
        lemma_transparent_row(c, f, cw, row, (k - 1) as nat);
        let col = k - 1;
        assert(row * f.width >= 0) by (nonlinear_arith)
            requires
                row >= 0,
                f.width >= 0,
        ;
        let p = row * f.width + col;
        assert(src_index(f, row, col) == 4 * p);
        if 4 * p + 3 < f.buffer.len() {
            assert(frame_alpha(f, p) == 0);
        }
    }
}

proof fn lemma_transparent_rows(c: Seq<u8>, f: FrameView, cw: int, r: nat)
    requires
        fully_transparent(f),
    ensures
        paint_rows(c, f, cw, r) == c,
    decreases r,
{
    if r > 0 {
        lemma_transparent_rows(c, f, cw, (r - 1) as nat);
        lemma_transparent_row(c, f, cw, r - 1, f.width as nat);
    }
}

/// Law: a frame with no visible pixel leaves the screen as it was, so the
/// picture beneath shows through.
pub proof fn lemma_transparent_frame_keeps_canvas(c: Seq<u8>, f: FrameView, cw: int)
    requires
        fully_transparent(f),
    ensures
        composite_spec(c, f, cw) == c,
{
    lemma_transparent_rows(c, f, cw, f.height as nat);
}

/// Paints a frame over the canvas (a `canvas_w`-pixel-wide RGBA buffer):
/// every opaque or translucent pixel of the frame whose bytes fit replaces
/// the canvas pixel under it; the canvas keeps its length.
pub fn composite_frame(canvas: &mut Vec<u8>, canvas_w: u32, f: &GifFrame)
    ensures
        final(canvas)@ == composite_spec(old(canvas)@, f@, canvas_w as int),
        final(canvas)@.len() == old(canvas)@.len(),
{
    proof {
        lemma_paint_rows_len(canvas@, f@, canvas_w as int, f.height as nat);
    }
    let ghost c0 = canvas@;
    let fw = f.width as u64;
    let fh = f.height as u64;
    let cw = canvas_w as u64;
    let mut row: u64 = 0;
    while row < fh
        invariant
            row <= fh,
            fw == f.width,
            fh == f.height,
            cw == canvas_w,
            canvas@ == paint_rows(c0, f@, cw as int, row as nat),
        decreases fh - row,
    {
        let ghost before_row = canvas@;
        let mut col: u64 = 0;
        while col < fw
            invariant
                col <= fw,
                row < fh,
                fw == f.width,
                fh == f.height,
                cw == canvas_w,
                canvas@ == paint_row(before_row, f@, cw as int, row as int, col as nat),
            decreases fw - col,
        {
            assert(row * fw + col <= 65535 * 65535 + 65535) by (nonlinear_arith)
                requires
                    row < 65536,
                    fw <= 65535,
                    col < fw,
            ;
            assert((f.top as u64 + row) * cw <= 131072 * 4294967295) by (nonlinear_arith)
                requires
                    f.top as u64 + row <= 131072,
                    cw <= 4294967295,
            ;
            let src_i: u64 = (row * fw + col) * 4;
            let dst_i: u64 = ((f.top as u64 + row) * cw + f.left as u64 + col) * 4;
            assert(src_i == src_index(f@, row as int, col as int));
            assert(dst_i == dst_index(f@, cw as int, row as int, col as int));
            if dst_i + 3 < canvas.len() as u64 && src_i + 3 < f.buffer.len() as u64 {
                let s = src_i as usize;
                let d = dst_i as usize;
                if f.buffer[s + 3] > 0 {
                    canvas.set(d, f.buffer[s]);
                    canvas.set(d + 1, f.buffer[s + 1]);
                    canvas.set(d + 2, f.buffer[s + 2]);
                    canvas.set(d + 3, f.buffer[s + 3]);
                }
            }
            col = col + 1;
        }
        row = row + 1;
    }
}


/// The frames of an animation painted one over another, with their
/// display times.  `canvases[k]` is the logical screen once frames
/// `0..=k` have been painted.
pub struct GifAnimation {
    pub width: u32,
    pub height: u32,
    pub canvases: Vec<Vec<u8>>,
    pub delays_ms: Vec<u16>,
}

/// An all-transparent `w × h` RGBA canvas.
pub open spec fn blank_canvas(w: int, h: int) -> Seq<u8> {
    Seq::new((4 * w * h) as nat, |i: int| 0u8)
}

/// The canvas after the first `k` frames have been painted.
pub open spec fn canvas_after(w: int, h: int, frames: Seq<FrameView>, k: nat) -> Seq<u8>
    decreases k,
{
    if k == 0 {
        blank_canvas(w, h)
    } else {
        composite_spec(canvas_after(w, h, frames, (k - 1) as nat), frames[k - 1], w)
    }
}

/// The canvases of an animation: the screen after each frame.
pub open spec fn animation_canvases(w: int, h: int, frames: Seq<FrameView>) -> Seq<Seq<u8>> {
    Seq::new(frames.len(), |k: int| canvas_after(w, h, frames, (k + 1) as nat))
}

/// The display times of the frames.
pub open spec fn animation_delays(frames: Seq<FrameView>) -> Seq<u16> {
    Seq::new(frames.len(), |k: int| frame_delay_ms_spec(frames[k].delay))
}

/// The vectors' contents.
pub open spec fn byte_views(v: Seq<Vec<u8>>) -> Seq<Seq<u8>> {
    Seq::new(v.len(), |k: int| v[k]@)
}

/// An animation exists when there is at least one frame and the screen's
/// RGBA size fits in 32 bits (a larger screen is refused, as the image
/// buffer that holds it cannot be made).
pub open spec fn animation_possible(w: int, h: int, n: nat) -> bool {
    n > 0 && 4 * w * h <= u32::MAX
}

/// Every GIF with at least one frame animates, a still one-frame GIF
/// included, as long as its screen's RGBA size fits in 32 bits: there is
/// one canvas and one display time per frame, and a single frame gives the
/// screen with that frame painted over a blank one, shown for its delay.
pub proof fn lemma_every_framed_gif_animates(w: int, h: int, frames: Seq<FrameView>)
    requires
        0 <= w,
        0 <= h,
    ensures
        animation_possible(w, h, frames.len()) <==> frames.len() >= 1 && 4 * w * h <= u32::MAX,
        animation_canvases(w, h, frames).len() == frames.len(),
        animation_delays(frames).len() == frames.len(),
        frames.len() == 1 ==> animation_canvases(w, h, frames) == seq![
            composite_spec(blank_canvas(w, h), frames[0], w),
        ],
        frames.len() == 1 ==> animation_delays(frames) == seq![frame_delay_ms_spec(frames[0].delay)],
{
    if frames.len() == 1 {
        assert(canvas_after(w, h, frames, 0) == blank_canvas(w, h));
        assert(canvas_after(w, h, frames, 1) == composite_spec(canvas_after(w, h, frames, 0), frames[0], w));
        assert(animation_canvases(w, h, frames) =~= seq![composite_spec(blank_canvas(w, h), frames[0], w)]);
        assert(animation_delays(frames) =~= seq![frame_delay_ms_spec(frames[0].delay)]);
    }
}

/// Paints `frames` one after another over a blank `width × height` screen
/// and records the screen and the display time after each frame.
pub fn animate_frames(width: u16, height: u16, frames: &Vec<GifFrame>) -> (r: Option<GifAnimation>)
    ensures
        r is Some <==> animation_possible(width as int, height as int, frame_views(frames@).len()),
        r matches Some(a) ==> {
            &&& a.width == width
            &&& a.height == height
            &&& byte_views(a.canvases@) == animation_canvases(width as int, height as int, frame_views(frames@))
            &&& a.delays_ms@ == animation_delays(frame_views(frames@))
        },
{
    let w = width as u32;
    let h = height as u32;
    if frames.len() == 0 {
        return None;
    }
    assert((w as u64) * (h as u64) <= 65535 * 65535) by (nonlinear_arith)
        requires
            w <= 65535,
            h <= 65535,
    ;
    let wh: u64 = (w as u64) * (h as u64);
    assert(4 * (w as int) * (h as int) == 4 * (wh as int)) by (nonlinear_arith)
        requires
            wh == (w as int) * (h as int),
    ;
    if wh > 1073741823 {
        return None;
    }
    let size: usize = (wh * 4) as usize;
    let mut canvas: Vec<u8> = Vec::new();
    let mut i: usize = 0;
    while i < size
        invariant
            i <= size,
            size == 4 * (w as int) * (h as int),
            canvas@ == Seq::new(i as nat, |j: int| 0u8),
        decreases size - i,
    {
        canvas.push(0u8);
        i = i + 1;
        assert(canvas@ =~= Seq::new(i as nat, |j: int| 0u8));
    }
    assert(canvas@ =~= blank_canvas(w as int, h as int));
    let mut canvases: Vec<Vec<u8>> = Vec::new();
    let mut delays: Vec<u16> = Vec::new();
    let mut k: usize = 0;
    while k < frames.len()
        invariant
            k <= frames.len(),
            w == width,
            h == height,
            canvas@ == canvas_after(w as int, h as int, frame_views(frames@), k as nat),
            byte_views(canvases@) == animation_canvases(w as int, h as int, frame_views(frames@)).take(k as int),
            delays@ == animation_delays(frame_views(frames@)).take(k as int),
        decreases frames.len() - k,
    {
        composite_frame(&mut canvas, w, &frames[k]);
        assert(frame_views(frames@)[k as int] == frames@[k as int]@);
        assert(canvas@ == canvas_after(w as int, h as int, frame_views(frames@), (k + 1) as nat));
        let ghost before = byte_views(canvases@);
        let snapshot = canvas.clone();
        assert(snapshot@ =~= canvas@);
        canvases.push(snapshot);
        delays.push(frame_delay_ms(frames[k].delay));
        assert(byte_views(canvases@) =~= before.push(snapshot@));
        assert(animation_canvases(w as int, h as int, frame_views(frames@))[k as int] == canvas_after(
            w as int,
            h as int,
            frame_views(frames@),
            (k + 1) as nat,
        ));
        k = k + 1;
        assert(byte_views(canvases@) =~= animation_canvases(w as int, h as int, frame_views(frames@)).take(
            k as int,
        ));
        assert(delays@ =~= animation_delays(frame_views(frames@)).take(k as int));
    }
    assert(byte_views(canvases@) =~= animation_canvases(w as int, h as int, frame_views(frames@)));
    assert(delays@ =~= animation_delays(frame_views(frames@)));
    Some(GifAnimation { width: w, height: h, canvases, delays_ms: delays })
}

/// Reads every frame of a GIF held in memory: the logical screen size and
/// the frames in file order, or `None` when the header is refused.
/// Decoding stops at the end of the image or at the first damaged frame.
pub fn read_gif_frames(data: &[u8]) -> (r: Option<(u16, u16, Vec<GifFrame>)>)
    ensures
        r is Some <==> gif_accepts(data@),
        r matches Some(t) ==> {
            &&& t.0 == gif_screen(data@).0
            &&& t.1 == gif_screen(data@).1
            &&& frame_views(t.2@) == gif_frames(data@)
        },
{
    let mut stream = match gif_open(data) {
        Some(s) => s,
        None => return None,
    };
    let w = gif_width(&stream);
    let h = gif_height(&stream);
    let ghost all = gif_frames(data@);
    let mut frames: Vec<GifFrame> = Vec::new();
    assert(frame_views(frames@) + gif_pending(stream) =~= all);
    loop
        invariant_except_break
            frame_views(frames@) + gif_pending(stream) == all,
        ensures
            frame_views(frames@) == all,
        decreases gif_pending(stream).len(),
    {
        let ghost before = frame_views(frames@);
        let ghost pending = gif_pending(stream);
        match gif_next_frame(&mut stream) {
            Some(f) => {
                let ghost fv = f@;
                frames.push(f);
                assert(frame_views(frames@) =~= before.push(fv));
                assert(pending =~= seq![fv] + pending.drop_first());
                assert(before.push(fv) + pending.drop_first() =~= before + pending);
            },
            None => {
                assert(before + pending =~= before);
                break;
            },
        }
    }
    Some((w, h, frames))
}

/// `a` is what `animate_frames` makes of `frames` on its screen size.
pub open spec fn animation_of(a: GifAnimation, frames: Seq<FrameView>) -> bool {
    &&& a.width <= 65535
    &&& a.height <= 65535
    &&& animation_possible(a.width as int, a.height as int, frames.len())
    &&& byte_views(a.canvases@) == animation_canvases(a.width as int, a.height as int, frames)
    &&& a.delays_ms@ == animation_delays(frames)
}

/// Decodes an animated GIF held in memory into the screen after each frame
/// and the frames' display times: the frames the gif crate delivers,
/// painted over the logical screen its header gives.  `None` when the
/// header is refused, when there is no frame, or when the screen is too
/// large.
pub fn decode_gif(data: &[u8]) -> (r: Option<GifAnimation>)
    ensures
        r is Some <==> gif_accepts(data@) && animation_possible(
            gif_screen(data@).0 as int,
            gif_screen(data@).1 as int,
            gif_frames(data@).len(),
        ),
        r matches Some(a) ==> {
            &&& a.width == gif_screen(data@).0
            &&& a.height == gif_screen(data@).1
            &&& animation_of(a, gif_frames(data@))
        },
        r matches Some(a) ==> a.canvases@.len() == a.delays_ms@.len() && a.canvases@.len() > 0
            && forall|k: int|
            0 <= k < a.canvases@.len() ==> #[trigger] a.canvases@[k]@.len() == 4 * (a.width as int)
                * (a.height as int),
{
    let (w, h, frames) = match read_gif_frames(data) {
        Some(t) => t,
        None => return None,
    };
    let r = animate_frames(w, h, &frames);
    proof {
        let fv = frame_views(frames@);
        assert(fv == gif_frames(data@));
        if r is Some {
            let a = r->Some_0;
            assert(animation_of(a, fv));
            assert(byte_views(a.canvases@).len() == a.canvases@.len());
            assert(a.canvases@.len() == fv.len());
            assert forall|k: int| 0 <= k < a.canvases@.len() implies #[trigger] a.canvases@[k]@.len()
                == 4 * (a.width as int) * (a.height as int) by {
                assert(a.canvases@[k]@ == byte_views(a.canvases@)[k]);
                lemma_canvas_after_len(w as int, h as int, fv, (k + 1) as nat);
            }
        }
    }
    r
}

proof fn lemma_canvas_after_len(w: int, h: int, frames: Seq<FrameView>, k: nat)
    requires
        0 <= w,
        0 <= h,
        k <= frames.len(),
    ensures
        canvas_after(w, h, frames, k).len() == 4 * w * h,
    decreases k,
{
    if k > 0 {
        lemma_canvas_after_len(w, h, frames, (k - 1) as nat);
        lemma_paint_rows_len(
            canvas_after(w, h, frames, (k - 1) as nat),
            frames[k - 1],
            w,
            frames[k - 1].height as nat,
        );
    } else {
        assert(0 <= 4 * w * h) by (nonlinear_arith)
            requires
                0 <= w,
                0 <= h,
        ;
    }
}

/// Every screen of the animation scaled to `nw × nh` pixels.
pub fn resize_animation(a: &GifAnimation, nw: u32, nh: u32) -> (r: Vec<Vec<u8>>)
    requires
        4 * (nw as int) * (nh as int) <= usize::MAX,
        4 * (a.width as int) * (nh as int) <= usize::MAX,
        forall|k: int|
            0 <= k < a.canvases@.len() ==> #[trigger] a.canvases@[k]@.len() == 4 * (a.width as int) * (
            a.height as int),
    ensures
        r@.len() == a.canvases@.len(),
        forall|k: int|
            0 <= k < r@.len() ==> #[trigger] r@[k]@ == resized_rgba(
                a.width,
                a.height,
                a.canvases@[k]@,
                nw,
                nh,
            ),
{
    let mut out: Vec<Vec<u8>> = Vec::new();
    let mut k: usize = 0;
    while k < a.canvases.len()
        invariant
            k <= a.canvases.len(),
            4 * (nw as int) * (nh as int) <= usize::MAX,
            4 * (a.width as int) * (nh as int) <= usize::MAX,
            forall|j: int|
                0 <= j < a.canvases@.len() ==> #[trigger] a.canvases@[j]@.len() == 4 * (a.width as int)
                    * (a.height as int),
            out@.len() == k,
            forall|j: int|
                0 <= j < k ==> #[trigger] out@[j]@ == resized_rgba(
                    a.width,
                    a.height,
                    a.canvases@[j]@,
                    nw,
                    nh,
                ),
        decreases a.canvases.len() - k,
    {
        let img = RgbaPixels { width: a.width, height: a.height, data: a.canvases[k].clone() };
        match resize_pixels(&img, nw, nh) {
            Some(p) => out.push(p.data),
            None => {
                assert(false);
                out.push(Vec::new());
            },
        }
        k = k + 1;
    }
    out
}

} // verus!
