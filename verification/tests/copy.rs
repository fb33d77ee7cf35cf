use sera::buffer::Buffer;
use sera::copy::basic;
use sera::copy::scaled;
use sera::pixel::Pixel;
use sera::placement::Scaling;
use sera::rect::Rect;

fn numbered(w: i32, h: i32) -> Buffer {
    let mut b = Buffer::new(w, h);
    for i in 0..(w * h) as usize {
        b.pixels[i] = Pixel { word: 0x100 + i as u32 };
    }
    b
}

fn plain(width: i32, height: i32, ix: i32, iy: i32) -> Scaling {
    Scaling { width, height, flip_x: false, flip_y: false, ix, iy, skip_x: 0, skip_y: 0 }
}

#[test]
fn copy_of_a_whole_source_reproduces_it() {
    for (sw, sh, dw, dh, x, y) in [(4, 4, 4, 4, 0, 0), (3, 2, 8, 5, 5, 3), (1, 1, 2, 2, 1, 0)] {
        let src = numbered(sw, sh);
        let mut dst = Buffer::new(dw, dh);
        basic(&mut dst, &src, x, y, Rect::new(0, 0, sw, sh));
        for py in 0..dh {
            for px in 0..dw {
                let inside = px >= x && px < x + sw && py >= y && py < y + sh;
                let want = if inside { src.get_pixel(px - x, py - y) } else { Pixel::color(0, 0, 0) };
                assert_eq!(dst.get_pixel(px, py), want);
            }
        }
    }
}

#[test]
fn copy_is_cut_by_the_clip_rectangle() {
    let mut src = Buffer::new(4, 4);
    let red = Pixel::color(255, 0, 0);
    src.clear(red);
    let mut dst = Buffer::new(8, 8);
    dst.set_clip(Rect::new(0, 0, 6, 6));
    basic(&mut dst, &src, 2, 2, Rect::new(0, 0, 4, 4));
    for y in 0..8 {
        for x in 0..8 {
            // of the columns and rows 2..6 that the copy covers, the clip
            // rectangle [0, 6) lets all four through; beyond it nothing changes
            let want = if (2..6).contains(&x) && (2..6).contains(&y) { red } else { Pixel::color(0, 0, 0) };
            assert_eq!(dst.get_pixel(x, y), want);
        }
    }
    let mut dst = Buffer::new(8, 8);
    dst.set_clip(Rect::new(0, 0, 4, 4));
    basic(&mut dst, &src, 2, 2, Rect::new(0, 0, 4, 4));
    for y in 0..8 {
        for x in 0..8 {
            let want = if (2..4).contains(&x) && (2..4).contains(&y) { red } else { Pixel::color(0, 0, 0) };
            assert_eq!(dst.get_pixel(x, y), want);
        }
    }
}

#[test]
fn copy_cut_on_the_left_keeps_pixels_in_place() {
    let src = numbered(4, 4);
    let mut dst = Buffer::new(4, 4);
    dst.set_clip(Rect::new(1, 1, 2, 2));
    basic(&mut dst, &src, -1, -1, Rect::new(0, 0, 4, 4));
    for y in 0..4 {
        for x in 0..4 {
            let inside = (1..3).contains(&x) && (1..3).contains(&y);
            let want = if inside { src.get_pixel(x + 1, y + 1) } else { Pixel::color(0, 0, 0) };
            assert_eq!(dst.get_pixel(x, y), want);
        }
    }
}

#[test]
fn copy_of_a_sub_rectangle() {
    let src = numbered(4, 4);
    let mut dst = Buffer::new(4, 4);
    basic(&mut dst, &src, 0, 1, Rect::new(2, 1, 2, 2));
    assert_eq!(dst.get_pixel(0, 1), src.get_pixel(2, 1));
    assert_eq!(dst.get_pixel(1, 2), src.get_pixel(3, 2));
    assert_eq!(dst.get_pixel(2, 1), Pixel::color(0, 0, 0));
    assert_eq!(dst.get_pixel(0, 0), Pixel::color(0, 0, 0));
    assert_eq!(dst.get_pixel(0, 3), Pixel::color(0, 0, 0));
}

#[test]
fn copy_far_outside_changes_nothing() {
    let src = numbered(4, 4);
    for (x, y) in [(i32::MIN, 0), (0, i32::MIN), (i32::MAX, 0), (0, i32::MAX), (-4, 0), (8, 8)] {
        let mut dst = Buffer::new(8, 8);
        basic(&mut dst, &src, x, y, Rect::new(0, 0, 4, 4));
        assert!(dst.pixels.iter().all(|p| *p == Pixel::color(0, 0, 0)));
    }
    let mut dst = Buffer::new(8, 8);
    basic(&mut dst, &src, 0, 0, Rect::new(0, 0, 0, 4));
    basic(&mut dst, &src, 0, 0, Rect::new(0, 0, 4, -1));
    assert!(dst.pixels.iter().all(|p| *p == Pixel::color(0, 0, 0)));
}

#[test]
fn scaled_copy_doubles_pixels() {
    let src = numbered(2, 2);
    let mut dst = Buffer::new(6, 6);
    let plan = plain(4, 4, 2048, 2048);
    assert!(plan.fits(&dst, &src, 1, 1, Rect::new(0, 0, 2, 2)));
    scaled(&mut dst, &src, 1, 1, Rect::new(0, 0, 2, 2), &plan);
    for y in 0..6 {
        for x in 0..6 {
            let inside = (1..5).contains(&x) && (1..5).contains(&y);
            let want = if inside { src.get_pixel((x - 1) / 2, (y - 1) / 2) } else { Pixel::color(0, 0, 0) };
            assert_eq!(dst.get_pixel(x, y), want);
        }
    }
}

#[test]
fn scaled_copy_halves_by_dropping_pixels() {
    let src = numbered(4, 4);
    let mut dst = Buffer::new(2, 2);
    let plan = plain(2, 2, 8192, 8192);
    scaled(&mut dst, &src, 0, 0, Rect::new(0, 0, 4, 4), &plan);
    assert_eq!(dst.get_pixel(0, 0), src.get_pixel(0, 0));
    assert_eq!(dst.get_pixel(1, 0), src.get_pixel(2, 0));
    assert_eq!(dst.get_pixel(0, 1), src.get_pixel(0, 2));
    assert_eq!(dst.get_pixel(1, 1), src.get_pixel(2, 2));
}

#[test]
fn scaled_copy_cut_on_the_left_skips_source_pixels() {
    let src = numbered(2, 2);
    let mut dst = Buffer::new(6, 6);
    dst.set_clip(Rect::new(2, 2, 4, 4));
    // two destination pixels are cut off on each side: one source pixel
    let plan = Scaling { skip_x: 1, skip_y: 1, ..plain(4, 4, 2048, 2048) };
    let sub = Rect::new(0, 0, 2, 2);
    assert!(plan.fits(&dst, &src, 0, 0, sub));
    scaled(&mut dst, &src, 0, 0, sub, &plan);
    for y in 0..6 {
        for x in 0..6 {
            let inside = (2..4).contains(&x) && (2..4).contains(&y);
            let want = if inside { src.get_pixel(1, 1) } else { Pixel::color(0, 0, 0) };
            assert_eq!(dst.get_pixel(x, y), want);
        }
    }
}

#[test]
fn scaled_copy_ignores_the_flip_flags() {
    let src = numbered(2, 2);
    let mut a = Buffer::new(4, 4);
    let mut b = Buffer::new(4, 4);
    let sub = Rect::new(0, 0, 2, 2);
    scaled(&mut a, &src, 0, 0, sub, &plain(4, 4, 2048, 2048));
    scaled(
        &mut b,
        &src,
        0,
        0,
        sub,
        &Scaling { flip_x: true, flip_y: true, ..plain(4, 4, 2048, 2048) },
    );
    assert_eq!(a.pixels, b.pixels);
}

#[test]
fn fits_refuses_a_plan_that_leaves_the_source() {
    let src = numbered(2, 2);
    let dst = Buffer::new(6, 6);
    let sub = Rect::new(0, 0, 2, 2);
    // five pixels at half a source pixel each reach the third source column
    assert!(!plain(5, 4, 2048, 2048).fits(&dst, &src, 0, 0, sub));
    assert!(!plain(4, 4, -2048, 2048).fits(&dst, &src, 0, 0, sub));
    assert!(plain(4, 4, 2048, 2048).fits(&dst, &src, 0, 0, sub));
    // nothing visible: nothing is read
    assert!(plain(5, 4, 2048, 2048).fits(&dst, &src, 6, 0, sub));
}

#[test]
fn scaled_copy_leaves_out_what_samples_outside_the_source() {
    let src = numbered(2, 2);
    let sub = Rect::new(0, 0, 2, 2);
    let mut dst = Buffer::new(6, 6);
    // five pixels at half a source pixel each: the fifth samples a third column
    let plan = plain(5, 6, 2048, 2048);
    assert!(!plan.fits(&dst, &src, 0, 0, sub));
    scaled(&mut dst, &src, 0, 0, sub, &plan);
    for y in 0..6 {
        for x in 0..6 {
            let want = if x < 4 && y < 4 { src.get_pixel(x / 2, y / 2) } else { Pixel::color(0, 0, 0) };
            assert_eq!(dst.get_pixel(x, y), want);
        }
    }
    // a step backwards leaves the source at once
    let mut dst = Buffer::new(6, 6);
    scaled(&mut dst, &src, 0, 0, sub, &plain(4, 4, -2048, 2048));
    for y in 0..6 {
        for x in 0..6 {
            let want = if x == 0 && y < 4 { src.get_pixel(0, y / 2) } else { Pixel::color(0, 0, 0) };
            assert_eq!(dst.get_pixel(x, y), want);
        }
    }
    // extreme plans do no harm
    let mut dst = Buffer::new(6, 6);
    let wild = Scaling {
        width: i32::MAX,
        height: i32::MAX,
        flip_x: false,
        flip_y: false,
        ix: i32::MAX,
        iy: i32::MIN,
        skip_x: i32::MIN,
        skip_y: i32::MAX,
    };
    scaled(&mut dst, &src, i32::MIN, i32::MIN, Rect::new(i32::MAX, i32::MIN, i32::MAX, i32::MIN), &wild);
    assert!(dst.pixels.iter().all(|p| *p == Pixel::color(0, 0, 0)));
}
