use sera::blend::BlendMode;
use sera::buffer::Buffer;
use sera::pixel::Pixel;
use sera::pixel::PixelFormat;
use sera::pixel::RGB_MASK;
use sera::rect::Rect;

#[test]
fn new_buffer_is_black_opaque_and_plain() {
    let b = Buffer::new(3, 2);
    assert_eq!(b.get_size(), (3, 2));
    assert_eq!(b.pixels.len(), 6);
    assert!(b.pixels.iter().all(|p| *p == Pixel::color(0, 0, 0)));
    assert_eq!(b.clip, Rect::new(0, 0, 3, 2));
    assert_eq!(b.mode.blend, BlendMode::ALPHA);
    assert_eq!(b.mode.alpha, 0xff);
    assert_eq!(b.mode.color.word, RGB_MASK);
    assert!(b.is_valid());
}

#[test]
fn is_valid_finds_a_broken_buffer() {
    let mut b = Buffer::new(3, 2);
    b.pixels.pop();
    assert!(!b.is_valid());
    let mut b = Buffer::new(3, 2);
    b.clip = Rect::new(0, 0, 4, 2);
    assert!(!b.is_valid());
    let mut b = Buffer::new(3, 2);
    b.w = 0;
    assert!(!b.is_valid());
    let mut b = Buffer::new(3, 2);
    b.clip = Rect::new(9, 9, 0, 0);
    assert!(b.is_valid());
}

#[test]
fn get_pixel_outside_is_the_zero_word() {
    let b = Buffer::new(2, 2);
    assert_eq!(b.get_pixel(-1, 0), Pixel { word: 0 });
    assert_eq!(b.get_pixel(0, 2), Pixel { word: 0 });
    assert_eq!(b.get_pixel(2, 0), Pixel { word: 0 });
    assert_eq!(b.get_pixel(1, 1), Pixel::color(0, 0, 0));
}

#[test]
fn set_pixel_writes_one_cell_and_ignores_the_clip() {
    let mut b = Buffer::new(3, 3);
    b.set_clip(Rect::new(0, 0, 1, 1));
    let red = Pixel::color(255, 0, 0);
    b.set_pixel(red, 2, 1);
    b.set_pixel(red, 3, 1);
    b.set_pixel(red, -1, -1);
    for y in 0..3 {
        for x in 0..3 {
            let want = if (x, y) == (2, 1) { red } else { Pixel::color(0, 0, 0) };
            assert_eq!(b.get_pixel(x, y), want);
        }
    }
    assert_eq!(b.pixels[2 + 3], red);
}

#[test]
fn set_color_drops_the_alpha() {
    let mut b = Buffer::new(1, 1);
    b.set_color(Pixel::pixel(1, 2, 3, 200));
    assert_eq!(b.mode.color, Pixel::pixel(1, 2, 3, 0));
    b.set_color(Pixel::color(255, 255, 255));
    assert_eq!(b.mode.color.word, RGB_MASK);
}

#[test]
fn set_blend_and_set_alpha_change_the_mode_only() {
    let mut b = Buffer::new(2, 2);
    b.set_blend(BlendMode::SCREEN);
    b.set_alpha(7);
    assert_eq!(b.mode.blend, BlendMode::SCREEN);
    assert_eq!(b.mode.alpha, 7);
    assert_eq!(b.mode.color.word, RGB_MASK);
    assert_eq!(b.clip, Rect::new(0, 0, 2, 2));
}

#[test]
fn set_clip_is_cut_to_the_grid() {
    let mut b = Buffer::new(8, 6);
    b.set_clip(Rect::new(-2, 1, 20, 3));
    assert_eq!(b.clip, Rect::new(0, 1, 8, 3));
    b.set_clip(Rect::new(100, 100, 5, 5));
    assert_eq!((b.clip.w, b.clip.h), (0, 0));
    assert!(b.is_valid());
}

#[test]
fn reset_restores_mode_and_clip() {
    let mut b = Buffer::new(4, 4);
    b.set_blend(BlendMode::ADD);
    b.set_alpha(3);
    b.set_color(Pixel::color(1, 1, 1));
    b.set_clip(Rect::new(1, 1, 1, 1));
    b.set_pixel(Pixel::color(9, 9, 9), 0, 0);
    b.reset();
    assert_eq!(b.mode.blend, BlendMode::ALPHA);
    assert_eq!(b.mode.alpha, 0xff);
    assert_eq!(b.mode.color.word, RGB_MASK);
    assert_eq!(b.clip, Rect::new(0, 0, 4, 4));
    assert_eq!(b.get_pixel(0, 0), Pixel::color(9, 9, 9));
}

#[test]
fn clear_sets_every_pixel() {
    let mut b = Buffer::new(3, 3);
    b.clear(Pixel { word: 0x1234_5678 });
    assert_eq!(b.pixels.len(), 9);
    assert!(b.pixels.iter().all(|p| p.word == 0x1234_5678));
}

#[test]
fn clone_copies_pixels_but_not_mode_or_clip() {
    let mut b = Buffer::new(2, 2);
    b.set_pixel(Pixel::color(1, 2, 3), 1, 0);
    b.set_blend(BlendMode::ADD);
    b.set_clip(Rect::new(0, 0, 1, 1));
    let c = b.clone();
    assert_eq!(c.pixels, b.pixels);
    assert_eq!(c.get_size(), (2, 2));
    assert_eq!(c.mode.blend, BlendMode::ALPHA);
    assert_eq!(c.clip, Rect::new(0, 0, 2, 2));
    assert_eq!(b.mode.blend, BlendMode::ADD);
    assert_eq!(b.clip, Rect::new(0, 0, 1, 1));
}

#[test]
fn resize_keeps_the_storage_order() {
    let mut b = Buffer::new(2, 2);
    for i in 0..4 {
        b.pixels[i] = Pixel { word: i as u32 + 1 };
    }
    b.set_clip(Rect::new(0, 0, 1, 1));
    b.resize(3, 2);
    assert_eq!(b.get_size(), (3, 2));
    assert_eq!(b.clip, Rect::new(0, 0, 3, 2));
    let words: Vec<u32> = b.pixels.iter().map(|p| p.word).collect();
    assert_eq!(words, vec![1, 2, 3, 4, 0xff00_0000, 0xff00_0000]);
    b.resize(1, 2);
    let words: Vec<u32> = b.pixels.iter().map(|p| p.word).collect();
    assert_eq!(words, vec![1, 2]);
    assert!(b.is_valid());
}

#[test]
fn load_pixels_reads_each_channel_order() {
    let word = 0x0403_0201u32;
    let cases = [
        (PixelFormat::BGRA, Pixel::pixel(3, 2, 1, 4)),
        (PixelFormat::RGBA, Pixel::pixel(1, 2, 3, 4)),
        (PixelFormat::ARGB, Pixel::pixel(2, 3, 4, 1)),
        (PixelFormat::ABGR, Pixel::pixel(4, 3, 2, 1)),
    ];
    for (fmt, want) in cases {
        let mut b = Buffer::new(2, 1);
        b.load_pixels(&[word, 0, 77], fmt);
        assert_eq!(b.pixels[0], want);
        assert_eq!(b.pixels[1], Pixel { word: 0 });
    }
}

#[test]
fn load_pixels_in_the_native_order_keeps_the_word() {
    let mut b = Buffer::new(1, 1);
    b.load_pixels(&[0xaabb_ccdd], PixelFormat::BGRA);
    assert_eq!(b.pixels[0].word, 0xaabb_ccdd);
}

#[test]
fn load_pixels8_without_palette_makes_white_with_alpha() {
    let mut b = Buffer::new(2, 2);
    b.load_pixels8(&[0, 1, 128, 255], None);
    assert_eq!(b.pixels[0], Pixel::pixel(255, 255, 255, 0));
    assert_eq!(b.pixels[1], Pixel::pixel(255, 255, 255, 1));
    assert_eq!(b.pixels[2], Pixel::pixel(255, 255, 255, 128));
    assert_eq!(b.pixels[3], Pixel::pixel(255, 255, 255, 255));
}

#[test]
fn load_pixels8_with_palette_looks_entries_up() {
    let pal = [Pixel::color(1, 1, 1), Pixel::color(2, 2, 2), Pixel::color(3, 3, 3)];
    let mut b = Buffer::new(2, 2);
    b.load_pixels8(&[2, 0, 1, 2], Some(&pal));
    assert_eq!(b.pixels, vec![pal[2], pal[0], pal[1], pal[2]]);
}

#[test]
fn to_bytes_lists_each_pixel_from_its_lowest_byte() {
    let mut b = Buffer::new(2, 1);
    b.pixels[0] = Pixel::pixel(1, 2, 3, 4);
    b.pixels[1] = Pixel { word: 0xaabb_ccdd };
    assert_eq!(b.to_bytes(), vec![3, 2, 1, 4, 0xdd, 0xcc, 0xbb, 0xaa]);
}
