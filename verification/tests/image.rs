use sera::buffer::Buffer;
use sera::image::Decoded;
use sera::pixel::Pixel;
use sera::pixel::RGB_MASK;
use sera::rect::Rect;

fn le32(v: u32) -> [u8; 4] {
    v.to_le_bytes()
}

// A 2 by 2 bitmap file with 24 bits per pixel: rows from the bottom up,
// each pixel as blue, green, red, each row padded to four bytes.
fn bitmap() -> Vec<u8> {
    let mut f: Vec<u8> = Vec::new();
    f.extend_from_slice(b"BM");
    f.extend_from_slice(&le32(70));
    f.extend_from_slice(&le32(0));
    f.extend_from_slice(&le32(54));
    f.extend_from_slice(&le32(40));
    f.extend_from_slice(&le32(2));
    f.extend_from_slice(&le32(2));
    f.extend_from_slice(&[1, 0, 24, 0]);
    f.extend_from_slice(&le32(0));
    f.extend_from_slice(&le32(16));
    f.extend_from_slice(&le32(2835));
    f.extend_from_slice(&le32(2835));
    f.extend_from_slice(&le32(0));
    f.extend_from_slice(&le32(0));
    f.extend_from_slice(&[255, 0, 0, 30, 20, 10, 0, 0]);
    f.extend_from_slice(&[0, 0, 255, 0, 255, 0, 0, 0]);
    f
}

#[test]
fn bytes_decodes_a_bitmap() {
    let file = bitmap();
    assert_eq!(file.len(), 70);
    let b = Buffer::bytes(&file).unwrap();
    assert_eq!(b.get_size(), (2, 2));
    assert_eq!(b.get_pixel(0, 0), Pixel::color(255, 0, 0));
    assert_eq!(b.get_pixel(1, 0), Pixel::color(0, 255, 0));
    assert_eq!(b.get_pixel(0, 1), Pixel::color(0, 0, 255));
    assert_eq!(b.get_pixel(1, 1), Pixel::color(10, 20, 30));
    assert_eq!(b.clip, Rect::new(0, 0, 2, 2));
    assert_eq!(b.mode.color.word, RGB_MASK);
    assert!(b.is_valid());
}

#[test]
fn bytes_of_no_image_give_no_buffer() {
    assert!(Buffer::bytes(&[]).is_none());
    assert!(Buffer::bytes(b"this is no image at all").is_none());
    let mut cut = bitmap();
    cut.truncate(20);
    assert!(Buffer::bytes(&cut).is_none());
}

#[test]
fn from_rgba8_reads_four_bytes_for_each_pixel() {
    let data = [1, 2, 3, 4, 5, 6, 7, 8, 9, 10, 11, 12, 99];
    let b = Buffer::from_rgba8(3, 1, &data).unwrap();
    assert_eq!(b.get_size(), (3, 1));
    assert_eq!(b.pixels, vec![Pixel::pixel(1, 2, 3, 4), Pixel::pixel(5, 6, 7, 8), Pixel::pixel(9, 10, 11, 12)]);
    let b = Buffer::from_rgba8(1, 3, &data).unwrap();
    assert_eq!(b.get_size(), (1, 3));
    assert_eq!(b.get_pixel(0, 2), Pixel::pixel(9, 10, 11, 12));
}

#[test]
fn from_rgba8_refuses_what_no_buffer_can_hold() {
    let data = [0u8; 16];
    assert!(Buffer::from_rgba8(0, 4, &data).is_none());
    assert!(Buffer::from_rgba8(4, 0, &data).is_none());
    assert!(Buffer::from_rgba8(5, 1, &data).is_none());
    assert!(Buffer::from_rgba8(2, 3, &data).is_none());
    assert!(Buffer::from_rgba8(usize::MAX, usize::MAX, &data).is_none());
    assert!(Buffer::from_rgba8(65536, 32768, &data).is_none());
    assert!(Buffer::from_rgba8(4, 1, &data).is_some());
    assert!(Buffer::from_rgba8(2, 2, &data).is_some());
}

#[test]
fn from_decoded_builds_what_the_decoder_handed_over() {
    assert!(Buffer::from_decoded(None).is_none());
    let img = Decoded { width: 1, height: 2, data: vec![1, 2, 3, 4, 5, 6, 7, 8] };
    let b = Buffer::from_decoded(Some(img)).unwrap();
    assert_eq!(b.get_size(), (1, 2));
    assert_eq!(b.pixels, vec![Pixel::pixel(1, 2, 3, 4), Pixel::pixel(5, 6, 7, 8)]);
    assert_eq!(b.clip, Rect::new(0, 0, 1, 2));
    let short = Decoded { width: 2, height: 2, data: vec![0; 15] };
    assert!(Buffer::from_decoded(Some(short)).is_none());
    let empty = Decoded { width: 0, height: 0, data: Vec::new() };
    assert!(Buffer::from_decoded(Some(empty)).is_none());
}
