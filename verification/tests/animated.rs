use palace_prop::animated::{expand_channels, is_big_prop, thumbnail_png, u24, AnimatedError, AnimatedProp};
use palace_prop::image::PropImage;
use palace_prop::prop_animated_recon::EmbeddedImage;

#[test]
fn u24_is_little_endian() {
    assert_eq!(u24(&[0x01, 0x02, 0x03]), 0x03_0201);
    assert_eq!(u24(&[0xff, 0x00, 0x00]), 0xff);
}

#[test]
fn expand_channels_widens_grey_and_rgb() {
    assert_eq!(
        expand_channels(&[10, 20], 1),
        vec![10, 10, 10, 255, 20, 20, 20, 255]
    );
    assert_eq!(expand_channels(&[1, 2, 3], 3), vec![1, 2, 3, 255]);
    assert_eq!(expand_channels(&[9, 128], 2), vec![9, 9, 9, 128]);
}

/// A little-endian big-prop blob carrying `flags` and the embedded `file`.
fn big_blob(flags: u16, file: &[u8]) -> Vec<u8> {
    let mut blob = vec![0x2c, 0x00, 0x2c, 0x00, 0, 0, 0, 0, 0, 0];
    blob.extend_from_slice(&flags.to_le_bytes());
    blob.extend_from_slice(&[0u8; 4840]);
    blob.extend_from_slice(&(file.len() as u32).to_le_bytes());
    // Descriptor: 220x220 at -88,-88, reserved 100, flags 0x0402.
    for word in [220i16, 220, -88, -88, 100, 0x0402] {
        blob.extend_from_slice(&word.to_le_bytes());
    }
    blob.extend_from_slice(file);
    blob
}

fn chunk(tag: &[u8; 4], payload: &[u8]) -> Vec<u8> {
    let mut out = tag.to_vec();
    out.extend_from_slice(&(payload.len() as u32).to_le_bytes());
    out.extend_from_slice(payload);
    if payload.len() % 2 == 1 {
        out.push(0);
    }
    out
}

fn u24_bytes(v: u32) -> [u8; 3] {
    [v as u8, (v >> 8) as u8, (v >> 16) as u8]
}

/// An animated WebP with two frames: 30x20 for 100 ms, then 10x5 for 250 ms.
fn webp_file() -> Vec<u8> {
    let mut body = b"WEBP".to_vec();
    let mut vp8x = vec![0x02, 0, 0, 0];
    vp8x.extend_from_slice(&u24_bytes(63));
    vp8x.extend_from_slice(&u24_bytes(47));
    body.extend(chunk(b"VP8X", &vp8x));
    let mut anim = 0xff00_00ffu32.to_le_bytes().to_vec();
    anim.extend_from_slice(&3u16.to_le_bytes());
    body.extend(chunk(b"ANIM", &anim));
    for (w, h, d) in [(30u32, 20u32, 100u32), (10, 5, 250)] {
        let mut anmf = vec![0u8; 6];
        anmf.extend_from_slice(&u24_bytes(w - 1));
        anmf.extend_from_slice(&u24_bytes(h - 1));
        anmf.extend_from_slice(&u24_bytes(d));
        anmf.push(0);
        body.extend(chunk(b"ANMF", &anmf));
    }
    let mut file = b"RIFF".to_vec();
    file.extend_from_slice(&(body.len() as u32).to_le_bytes());
    file.extend(body);
    file
}

fn small_png() -> (PropImage, Vec<u8>) {
    let rgba: Vec<u8> = (0..3 * 2 * 4).map(|i| (i * 7) as u8).collect();
    let image = PropImage::from_rgba(3, 2, rgba).unwrap();
    let png = image.to_png_bytes().unwrap();
    (image, png)
}

#[test]
fn a_still_png_big_prop_decodes_one_frame_from_the_embedded_file() {
    let (image, png) = small_png();
    let blob = big_blob(0x0400, &png);
    assert!(is_big_prop(&blob));
    let prop = AnimatedProp::decode(&blob).unwrap();
    assert!(!prop.is_animated());
    assert_eq!(prop.frame_count(), 1);
    let info = prop.frame_info(0).unwrap();
    assert_eq!((info.width, info.height, info.duration_ms, info.decoded), (3, 2, 0, true));
    assert!(prop.frame_info(1).is_none());
    assert_eq!(prop.canvas(), (3, 2));
    assert_eq!(prop.loop_count(), 0);
    assert_eq!(prop.background(), 0);
    assert_eq!(prop.base_side(), 44);
    let frame = prop.decode_frame(0).unwrap();
    assert_eq!(frame.as_rgba(), image.as_rgba());
    assert!(prop.decode_frame(1).is_none());
    assert_eq!(prop.frame_zero().as_rgba(), image.as_rgba());
    assert_eq!(prop.still_image().unwrap().width(), 3);
    assert_eq!(prop.embedded_bytes(), &png[..]);
    assert_eq!(prop.to_blob(), blob);
    assert_eq!(prop.descriptor().x_offset, -88);
    assert!(matches!(prop.embedded(), EmbeddedImage::Png { width: 3, height: 2 }));
    let thumb = prop.thumbnail_png().unwrap();
    assert_eq!(thumb, image.to_png_bytes().unwrap());
    assert_eq!(thumbnail_png(&blob), Some(thumb));
}

#[test]
fn an_animated_webp_reports_its_frame_table_and_renders_the_base() {
    let file = webp_file();
    let blob = big_blob(0x0c00, &file);
    let prop = AnimatedProp::decode(&blob).unwrap();
    assert!(prop.is_animated());
    assert_eq!(prop.frame_count(), 2);
    let frames = prop.frame_infos();
    assert_eq!((frames[0].width, frames[0].height, frames[0].duration_ms), (30, 20, 100));
    assert_eq!((frames[1].width, frames[1].height, frames[1].duration_ms), (10, 5, 250));
    assert!(frames[0].decoded);
    assert!(!frames[1].decoded);
    assert_eq!(prop.frame_durations_ms(), vec![100, 250]);
    assert_eq!(prop.total_duration_ms(), 350);
    assert_eq!(prop.loop_count(), 3);
    assert_eq!(prop.background(), 0xff00_00ff);
    assert_eq!(prop.canvas(), (64, 48));
    let base = prop.decode_frame(0).unwrap();
    assert_eq!((base.width(), base.height()), (44, 44));
    assert!(prop.decode_frame(1).is_none());
    assert!(prop.still_image().is_none());
    assert_eq!(prop.frame_zero().as_rgba(), prop.base_image().as_rgba());
    assert_eq!(prop.to_blob(), blob);
}

#[test]
fn a_plain_prop_is_not_a_container() {
    let mut blob = vec![0x2c, 0x00, 0x2c, 0x00, 0, 0, 0, 0, 0, 0, 0x00, 0x02];
    blob.extend_from_slice(&[0u8; 4860]);
    assert!(!is_big_prop(&blob));
    assert!(matches!(AnimatedProp::decode(&blob), Err(AnimatedError::Container(_))));
    assert!(thumbnail_png(&blob).is_none());
}

#[test]
fn a_broken_embedded_png_still_renders_the_base_as_frame_zero() {
    let mut fake = vec![0x89, 0x50, 0x4E, 0x47, 0x0D, 0x0A, 0x1A, 0x0A, 0, 0, 0, 13];
    fake.extend_from_slice(b"IHDR");
    fake.extend_from_slice(&[0, 0, 0, 5, 0, 0, 0, 5]);
    let blob = big_blob(0x0400, &fake);
    let prop = AnimatedProp::decode(&blob).unwrap();
    assert_eq!(prop.frame_count(), 1);
    assert!(prop.decode_frame(0).is_none());
    assert_eq!(prop.frame_zero().width(), 44);
}

#[test]
fn the_error_texts_name_their_cause() {
    let e = AnimatedError::ImageDimensions { width: 0, height: 7 };
    assert_eq!(e.message(), "embedded image dimensions 0x7 are out of range");
    let e = AnimatedError::Png { detail: "bad".to_string() };
    assert_eq!(e.message(), "embedded PNG: bad");
}
