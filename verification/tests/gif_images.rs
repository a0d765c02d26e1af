use gravity_engine::gif_anim::{
    animate_frames, composite_frame, decode_gif, frame_delay_ms, read_gif_frames, resize_animation,
    GifFrame,
};
use gravity_engine::images::{
    decode_image, image_source, is_gif_download, opaque_samples, resize_pixels, ImageSource,
    RgbaPixels,
};

fn two_frame_gif() -> Vec<u8> {
    let mut out = Vec::new();
    {
        let palette = [255u8, 0, 0, 0, 0, 255];
        let mut enc = gif::Encoder::new(&mut out, 2, 2, &palette).unwrap();
        let mut f1 = gif::Frame::from_indexed_pixels(2, 2, vec![0u8, 0, 0, 0], None);
        f1.delay = 5;
        enc.write_frame(&f1).unwrap();
        let mut f2 = gif::Frame::from_indexed_pixels(1, 1, vec![1u8], None);
        f2.left = 1;
        f2.top = 1;
        f2.delay = 0;
        enc.write_frame(&f2).unwrap();
    }
    out
}

#[test]
fn delays_in_milliseconds() {
    assert_eq!(frame_delay_ms(0), 20);
    assert_eq!(frame_delay_ms(1), 20);
    assert_eq!(frame_delay_ms(5), 50);
    assert_eq!(frame_delay_ms(6553), 65530);
    assert_eq!(frame_delay_ms(6554), 65535);
    assert_eq!(frame_delay_ms(7000), 65535);
    assert_eq!(frame_delay_ms(32768), 65535);
}

#[test]
fn composite_skips_transparent_and_outside() {
    let mut canvas = vec![9u8; 2 * 2 * 4];
    let f = GifFrame {
        delay: 0,
        left: 1,
        top: 0,
        width: 2,
        height: 1,
        buffer: vec![1, 2, 3, 4, 5, 6, 7, 0],
    };
    composite_frame(&mut canvas, 2, &f);
    // pixel (1,0) painted; the second source pixel is transparent
    assert_eq!(canvas, vec![9, 9, 9, 9, 1, 2, 3, 4, 9, 9, 9, 9, 9, 9, 9, 9]);
    // a frame running past the end of the canvas only paints what fits
    let g = GifFrame { delay: 0, left: 0, top: 2, width: 1, height: 1, buffer: vec![1, 1, 1, 1] };
    let before = canvas.clone();
    composite_frame(&mut canvas, 2, &g);
    assert_eq!(canvas, before);
}

#[test]
fn composite_wraps_into_next_row() {
    let mut canvas = vec![0u8; 2 * 2 * 4];
    let f = GifFrame { delay: 0, left: 1, top: 0, width: 2, height: 1, buffer: vec![1, 1, 1, 1, 2, 2, 2, 2] };
    composite_frame(&mut canvas, 2, &f);
    assert_eq!(&canvas[4..12], &[1, 1, 1, 1, 2, 2, 2, 2]);
}

#[test]
fn animate_refuses_empty_and_huge() {
    assert!(animate_frames(2, 2, &vec![]).is_none());
    let f = GifFrame { delay: 0, left: 0, top: 0, width: 0, height: 0, buffer: vec![] };
    assert!(animate_frames(65535, 65535, &vec![f]).is_none());
}

#[test]
fn decodes_two_frames() {
    let data = two_frame_gif();
    let (w, h, frames) = read_gif_frames(&data).unwrap();
    assert_eq!((w, h, frames.len()), (2, 2, 2));
    let a = decode_gif(&data).unwrap();
    assert_eq!((a.width, a.height), (2, 2));
    assert_eq!(a.delays_ms, vec![50, 20]);
    let red = [255u8, 0, 0, 255];
    let blue = [0u8, 0, 255, 255];
    let first: Vec<u8> = red.iter().cycle().take(16).cloned().collect();
    assert_eq!(a.canvases[0], first);
    let mut second = first.clone();
    second[12..16].copy_from_slice(&blue);
    assert_eq!(a.canvases[1], second);
    let small = resize_animation(&a, 1, 1);
    assert_eq!(small.len(), 2);
    assert_eq!(small[0], red.to_vec());
}

#[test]
fn not_a_gif() {
    assert!(read_gif_frames(b"hello world").is_none());
    assert!(decode_gif(b"").is_none());
}

fn png_bytes(w: u32, h: u32, data: Vec<u8>) -> Vec<u8> {
    let img = image::RgbaImage::from_raw(w, h, data).unwrap();
    let mut out = std::io::Cursor::new(Vec::new());
    img.write_to(&mut out, image::ImageFormat::Png).unwrap();
    out.into_inner()
}

#[test]
fn decodes_and_resizes_png() {
    let data: Vec<u8> = (0..16u8).collect();
    let p = decode_image(&png_bytes(2, 2, data.clone())).unwrap();
    assert_eq!((p.width, p.height), (2, 2));
    assert_eq!(p.data, data);
    let same = resize_pixels(&p, 2, 2).unwrap();
    assert_eq!(same.data, data);
    let big = resize_pixels(&p, 4, 3).unwrap();
    assert_eq!((big.width, big.height, big.data.len()), (4, 3, 48));
    assert!(decode_image(b"not an image").is_none());
    let short = RgbaPixels { width: 2, height: 2, data: vec![0; 15] };
    assert!(resize_pixels(&short, 1, 1).is_none());
}

#[test]
fn samples_of_opaque_pixels() {
    // 3x2 image: opaque except pixel (1,0); alpha 20 is not enough
    let mut data = vec![0u8; 3 * 2 * 4];
    for (i, a) in [255u8, 20, 21, 255, 255, 0].iter().enumerate() {
        data[i * 4 + 3] = *a;
    }
    let img = RgbaPixels { width: 3, height: 2, data };
    assert_eq!(opaque_samples(&img), Some(vec![(0, 0), (2, 0), (0, 1), (1, 1)]));
    let clear = RgbaPixels { width: 3, height: 2, data: vec![0; 24] };
    assert_eq!(opaque_samples(&clear), None);
    // a 96-pixel image is sampled every second pixel
    let mut tall = RgbaPixels { width: 96, height: 96, data: vec![255; 96 * 96 * 4] };
    // fully opaque: no cut-out, a plain box is used
    assert_eq!(opaque_samples(&tall), None);
    let solid = RgbaPixels { width: 2, height: 2, data: vec![255; 16] };
    assert_eq!(opaque_samples(&solid), None);
    // one transparent sample point (pixel (2, 0)) makes the outline count
    tall.data[2 * 4 + 3] = 0;
    assert_eq!(opaque_samples(&tall).unwrap().len(), 48 * 48 - 1);
    // a transparent pixel between the sample points does not
    tall.data[2 * 4 + 3] = 255;
    tall.data[1 * 4 + 3] = 0;
    assert_eq!(opaque_samples(&tall), None);
}

#[test]
fn source_kinds_by_name() {
    assert_eq!(image_source("anim.GIF"), ImageSource::Gif);
    assert_eq!(image_source("logo.svg"), ImageSource::Svg);
    assert_eq!(image_source("photo.JPEG"), ImageSource::Raster { may_have_alpha: false });
    assert_eq!(image_source("pic.pbm"), ImageSource::Raster { may_have_alpha: false });
    assert_eq!(image_source("icon.png"), ImageSource::Raster { may_have_alpha: true });
    assert_eq!(image_source("noext"), ImageSource::Raster { may_have_alpha: true });
}

#[test]
fn gif_downloads() {
    assert!(is_gif_download("b.gif", b""));
    assert!(!is_gif_download("b.GIF", b"PNG"));
    assert!(is_gif_download("x", b"GIF87a...."));
    assert!(is_gif_download("x", b"GIF89a"));
    assert!(!is_gif_download("x", b"GIF88a"));
    assert!(!is_gif_download("x", b"GIF8"));
}

#[test]
fn transparent_frame_keeps_canvas() {
    let mut canvas: Vec<u8> = (0u8..16).collect();
    let before = canvas.clone();
    let f = GifFrame {
        delay: 3,
        left: 0,
        top: 0,
        width: 2,
        height: 2,
        buffer: vec![200, 100, 50, 0, 1, 2, 3, 0, 7, 7, 7, 0, 9, 9, 9, 0],
    };
    composite_frame(&mut canvas, 2, &f);
    assert_eq!(canvas, before);
}
