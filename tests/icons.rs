use keydeck::icon::{
    centered_crop, encode_key_bitmap, get_image_data, key_image_pages, render_key_bitmap, Bitmap,
    IconError, KEY_EDGE,
};
use std::io::Cursor;

fn pixel(x: u32, y: u32) -> [u8; 4] {
    [(10 * x + y) as u8, (20 * y + x) as u8, (x * y + 1) as u8, 255]
}

fn bitmap(w: u32, h: u32) -> Bitmap {
    let mut rgba = Vec::new();
    for y in 0..h {
        for x in 0..w {
            rgba.extend_from_slice(&pixel(x, y));
        }
    }
    Bitmap { width: w, height: h, rgba }
}

fn at(b: &Bitmap, x: u32, y: u32) -> [u8; 4] {
    let i = 4 * (y * b.width + x) as usize;
    [b.rgba[i], b.rgba[i + 1], b.rgba[i + 2], b.rgba[i + 3]]
}

fn png(w: u32, h: u32) -> Vec<u8> {
    let b = bitmap(w, h);
    let img = image::RgbaImage::from_raw(w, h, b.rgba).unwrap();
    let mut out = Vec::new();
    image::DynamicImage::ImageRgba8(img)
        .write_to(&mut Cursor::new(&mut out), image::ImageFormat::Png)
        .unwrap();
    out
}

#[test]
fn crop_is_centred_on_the_longer_side() {
    assert_eq!(centered_crop(100, 60), (20, 0, 60));
    assert_eq!(centered_crop(60, 100), (0, 20, 60));
    assert_eq!(centered_crop(5, 2), (1, 0, 2));
    assert_eq!(centered_crop(72, 72), (0, 0, 72));
    assert_eq!(centered_crop(0, 9), (0, 4, 0));
}

#[test]
fn wide_source_becomes_key_square_turned_half() {
    let r = render_key_bitmap(&bitmap(4, 2));
    assert_eq!((r.width, r.height), (KEY_EDGE, KEY_EDGE));
    assert_eq!(r.rgba.len(), 4 * 72 * 72);
    // The crop keeps columns 1 and 2; after the half turn the top-left
    // corner shows source pixel (2, 1) and the bottom-right one (1, 0).
    assert_eq!(at(&r, 0, 0), pixel(2, 1));
    assert_eq!(at(&r, 71, 71), pixel(1, 0));
    assert_eq!(at(&r, 71, 0), pixel(1, 1));
}

#[test]
fn tall_source_becomes_key_square() {
    let r = render_key_bitmap(&bitmap(3, 7));
    assert_eq!((r.width, r.height), (72, 72));
    assert_eq!(at(&r, 0, 0), pixel(2, 4));
    assert_eq!(at(&r, 71, 71), pixel(0, 2));
}

#[test]
fn icon_is_a_key_sized_jpeg() {
    let jpeg = get_image_data(&png(90, 40)).unwrap();
    assert_eq!(jpeg[..2], [0xFF, 0xD8]);
    let back = image::load_from_memory(&jpeg).unwrap();
    assert_eq!((back.width(), back.height()), (72, 72));
}

#[test]
fn icon_preparation_is_deterministic() {
    let src = png(31, 57);
    let a = get_image_data(&src).unwrap();
    let b = get_image_data(&src).unwrap();
    assert_eq!(a, b);
}

#[test]
fn unreadable_icon_is_a_decode_error() {
    assert_eq!(get_image_data(b"not an image"), Err(IconError::Decode));
    assert_eq!(get_image_data(&[]), Err(IconError::Decode));
}

#[test]
fn empty_bitmap_is_refused_by_the_encoder() {
    let empty = Bitmap { width: 0, height: 0, rgba: Vec::new() };
    assert_eq!(encode_key_bitmap(&empty), Err(IconError::Encode));
}

#[test]
fn icon_transfer_pages_frame_the_jpeg() {
    let src = png(50, 80);
    let jpeg = get_image_data(&src).unwrap();
    let pages = key_image_pages(7, &src).unwrap();
    assert_eq!(pages.len(), (jpeg.len() + 1015) / 1016);
    let mut joined = Vec::new();
    for (n, page) in pages.iter().enumerate() {
        assert_eq!(page.len(), 1024);
        assert_eq!(page[..3], [0x02, 0x07, 7]);
        assert_eq!(page[6] as usize + 256 * page[7] as usize, n);
        assert_eq!(page[3] == 1, n + 1 == pages.len());
        let len = page[4] as usize + 256 * page[5] as usize;
        joined.extend_from_slice(&page[8..8 + len]);
    }
    assert_eq!(joined, jpeg);
    assert_eq!(key_image_pages(7, b"garbage"), Err(IconError::Decode));
}

#[test]
fn encoder_accepts_every_nonzero_size_and_opens_with_soi() {
    let one = encode_key_bitmap(&bitmap(1, 1)).unwrap();
    assert_eq!(one[..2], [0xFF, 0xD8]);
    let key = encode_key_bitmap(&render_key_bitmap(&bitmap(9, 4))).unwrap();
    assert_eq!(key[..2], [0xFF, 0xD8]);
    let flat = Bitmap { width: 0, height: 5, rgba: Vec::new() };
    assert_eq!(encode_key_bitmap(&flat), Err(IconError::Encode));
    let wide = Bitmap { width: 65536, height: 1, rgba: vec![0; 4 * 65536] };
    assert_eq!(encode_key_bitmap(&wide), Err(IconError::Encode));
}
