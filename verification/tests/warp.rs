use sera::buffer::Buffer;
use sera::pixel::ColorChannel;
use sera::pixel::Pixel;
use sera::warp::fxsin;
use sera::warp::SinTable;

fn numbered(w: i32, h: i32) -> Buffer {
    let mut b = Buffer::new(w, h);
    for i in 0..(w * h) as usize {
        b.pixels[i] = Pixel { word: 0xff00_0100 + i as u32 };
    }
    b
}

fn table(f: fn(i32) -> i32) -> SinTable {
    SinTable::new((0..1024).map(f).collect()).unwrap()
}

#[test]
fn sin_table_has_1024_entries() {
    assert!(SinTable::new(vec![0; 1024]).is_some());
    assert!(SinTable::new(vec![0; 1023]).is_none());
    assert!(SinTable::new(vec![0; 1025]).is_none());
    assert!(SinTable::new(Vec::new()).is_none());
}

#[test]
fn fxsin_wraps_around() {
    let t = table(|i| i * 3);
    assert_eq!(fxsin(&t, 0), 0);
    assert_eq!(fxsin(&t, 5), 15);
    assert_eq!(fxsin(&t, 1023), 3069);
    assert_eq!(fxsin(&t, 1024), 0);
    assert_eq!(fxsin(&t, 2049), 3);
    assert_eq!(fxsin(&t, -1), 3069);
    assert_eq!(fxsin(&t, -1024), 0);
    assert_eq!(fxsin(&t, i32::MIN), 0);
    assert_eq!(fxsin(&t, i32::MAX), 3069);
}

#[test]
fn wave_of_no_height_copies() {
    let src = numbered(3, 2);
    let mut dst = Buffer::new(4, 3);
    dst.wave(&src, &table(|i| i), 0, 0, 7, 9, 1, 2);
    for y in 0..3 {
        for x in 0..4 {
            assert_eq!(dst.get_pixel(x, y), src.get_pixel(x, y));
        }
    }
    assert_eq!(dst.get_pixel(3, 0), Pixel { word: 0 });
}

#[test]
fn wave_moves_the_reading() {
    let src = numbered(8, 8);
    let mut dst = Buffer::new(4, 4);
    // a sine of 1024 times an amount of 2, cut down by ten bits, is 2
    dst.wave(&src, &table(|_| 1024), 2, 3, 1, 1, 0, 0);
    for y in 0..4 {
        for x in 0..4 {
            assert_eq!(dst.get_pixel(x, y), src.get_pixel(x + 2, y + 3));
        }
    }
}

#[test]
fn wave_angle_grows_with_the_position() {
    let src = numbered(16, 4);
    let mut dst = Buffer::new(4, 4);
    // the row y has the angle 3 * y, and the table hands the angle back
    dst.wave(&src, &table(|i| i), 1024, 0, 3, 0, 5, 0);
    for y in 0..4 {
        for x in 0..4 {
            assert_eq!(dst.get_pixel(x, y), src.get_pixel(x + 3 * y, y));
        }
    }
}

#[test]
fn wave_with_a_negative_product_reads_far_away() {
    let src = numbered(8, 8);
    let mut dst = Buffer::new(4, 4);
    dst.wave(&src, &table(|_| -1024), 1, 0, 1, 1, 0, 0);
    assert!(dst.pixels.iter().all(|p| p.word == 0));
}

#[test]
fn displace_by_the_middle_level_copies() {
    let src = numbered(3, 3);
    let mut map = Buffer::new(3, 3);
    map.clear(Pixel::pixel(128, 128, 128, 128));
    let mut dst = Buffer::new(3, 3);
    dst.displace(&src, &map, ColorChannel::R, ColorChannel::A, 1000, -1000);
    assert_eq!(dst.pixels, src.pixels);
}

#[test]
fn displace_moves_by_level_and_scale() {
    let src = numbered(8, 8);
    let mut map = Buffer::new(8, 8);
    // ((255 - 128) * (4 << 7)) >> 14 == 3 and ((0 - 128) * (4 << 7)) >> 14 == -4
    map.clear(Pixel::pixel(255, 0, 128, 7));
    let mut dst = Buffer::new(8, 8);
    dst.displace(&src, &map, ColorChannel::R, ColorChannel::G, 4, 4);
    for y in 0..8 {
        for x in 0..8 {
            assert_eq!(dst.get_pixel(x, y), src.get_pixel(x + 3, y - 4));
        }
    }
    dst.displace(&src, &map, ColorChannel::B, ColorChannel::A, 4, 1);
    for y in 0..8 {
        for x in 0..8 {
            // ((7 - 128) * (1 << 7)) >> 14 == -1
            assert_eq!(dst.get_pixel(x, y), src.get_pixel(x, y - 1));
        }
    }
}

#[test]
fn blur_of_radius_zero_keeps_the_colour() {
    let mut src = Buffer::new(3, 3);
    src.noise(5, 0, 255, false);
    src.pixels[4] = Pixel::pixel(1, 2, 3, 0);
    let mut dst = Buffer::new(3, 3);
    dst.blur(&src, 0, 0);
    for i in 0..9 {
        let (s, d) = (src.pixels[i].rgba(), dst.pixels[i].rgba());
        assert_eq!((d.r, d.g, d.b, d.a), (s.r, s.g, s.b, 255));
    }
}

#[test]
fn blur_weights_and_edges() {
    let mut src = Buffer::new(5, 5);
    src.clear(Pixel::color(100, 100, 100));
    let mut dst = Buffer::new(5, 5);
    dst.blur(&src, 1, 1);
    // a row of three at 100 weighs (300 * 85) >> 8 = 99, three rows (297 * 85) >> 8 = 98
    assert_eq!(dst.get_pixel(2, 2), Pixel::color(98, 98, 98));
    // at the top edge one row is missing: (198 * 85) >> 8 = 65
    assert_eq!(dst.get_pixel(2, 0), Pixel::color(65, 65, 65));
    // in the corner a row has two pixels, (200 * 85) >> 8 = 66, and there are two rows
    assert_eq!(dst.get_pixel(0, 0), Pixel::color(43, 43, 43));
    assert_eq!(dst.get_pixel(4, 4), Pixel::color(43, 43, 43));
}

#[test]
fn blur_along_one_axis() {
    let mut src = Buffer::new(5, 1);
    for (i, v) in [0u8, 0, 90, 0, 0].iter().enumerate() {
        src.pixels[i] = Pixel::color(*v, 0, *v);
    }
    let mut dst = Buffer::new(5, 1);
    dst.blur(&src, 1, 0);
    let reds: Vec<u8> = dst.pixels.iter().map(|p| p.rgba().r).collect();
    // (90 * 85) >> 8 = 29
    assert_eq!(reds, vec![0, 29, 29, 29, 0]);
    assert!(dst.pixels.iter().all(|p| p.rgba().g == 0 && p.rgba().a == 255));
}

#[test]
fn blur_of_negative_or_huge_radius_is_black() {
    let mut src = Buffer::new(3, 3);
    src.clear(Pixel::color(200, 200, 200));
    for (rx, ry) in [(-1, 0), (0, -1), (-5, -5), (128, 0), (0, 200)] {
        let mut dst = Buffer::new(3, 3);
        dst.clear(Pixel { word: 0x1234_5678 });
        dst.blur(&src, rx, ry);
        assert!(dst.pixels.iter().all(|p| *p == Pixel::color(0, 0, 0)));
    }
}
