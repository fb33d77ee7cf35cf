use sera::blit::copy_path;
use sera::blit::draw_path;
use sera::blit::CopyPath;
use sera::blit::DrawPath;
use sera::blit::Placement;
use sera::buffer::Buffer;
use sera::pixel::Pixel;
use sera::placement::Rotation;
use sera::placement::Scaling;
use sera::rect::Point;
use sera::rect::Rect;

fn numbered(w: i32, h: i32) -> Buffer {
    let mut b = Buffer::new(w, h);
    for i in 0..(w * h) as usize {
        b.pixels[i] = Pixel { word: 0xff00_0100 + i as u32 };
    }
    b
}

fn black() -> Pixel {
    Pixel::color(0, 0, 0)
}

fn doubled() -> Scaling {
    Scaling {
        width: 4,
        height: 4,
        flip_x: false,
        flip_y: false,
        ix: 2048,
        iy: 2048,
        skip_x: 0,
        skip_y: 0,
    }
}

#[test]
fn draw_path_table() {
    assert_eq!(draw_path(false, false, false), DrawPath::Basic);
    assert_eq!(draw_path(false, true, true), DrawPath::Basic);
    assert_eq!(draw_path(true, true, true), DrawPath::BasicMoved);
    assert_eq!(draw_path(true, true, false), DrawPath::Scaled);
    assert_eq!(draw_path(true, false, true), DrawPath::RotateScaled);
    assert_eq!(draw_path(true, false, false), DrawPath::RotateScaled);
}

#[test]
fn copy_path_table() {
    assert_eq!(copy_path(true, false), CopyPath::Nothing);
    assert_eq!(copy_path(true, true), CopyPath::Nothing);
    assert_eq!(copy_path(false, true), CopyPath::Basic);
    assert_eq!(copy_path(false, false), CopyPath::Scaled);
}

#[test]
fn can_select_tells_rectangles_apart() {
    let b = Buffer::new(4, 3);
    assert!(b.can_select(None));
    assert!(b.can_select(Some(Rect::new(0, 0, 4, 3))));
    assert!(b.can_select(Some(Rect::new(3, 2, 1, 1))));
    assert!(!b.can_select(Some(Rect::new(3, 2, 2, 1))));
    assert!(!b.can_select(Some(Rect::new(-1, 0, 2, 1))));
    assert!(!b.can_select(Some(Rect::new(0, 0, 1, 4))));
    // without area a rectangle selects nothing, wherever it lies
    assert!(b.can_select(Some(Rect::new(100, 100, 0, 5))));
    assert!(b.can_select(Some(Rect::new(-7, 0, 3, -1))));
}

#[test]
fn select_resolves_the_source_rectangle() {
    let b = Buffer::new(4, 3);
    assert_eq!(b.select(None), Some(Rect::new(0, 0, 4, 3)));
    assert_eq!(b.select(Some(Rect::new(1, 1, 2, 2))), Some(Rect::new(1, 1, 2, 2)));
    assert_eq!(b.select(Some(Rect::new(1, 1, 0, 2))), None);
    assert_eq!(b.select(Some(Rect::new(1, 1, 2, -2))), None);
}

#[test]
fn copy_pixels_without_rectangle_copies_everything() {
    let src = numbered(2, 2);
    let mut dst = Buffer::new(3, 3);
    dst.copy_pixels(&src, 1, 1, None, None);
    assert_eq!(dst.get_pixel(1, 1), src.get_pixel(0, 0));
    assert_eq!(dst.get_pixel(2, 2), src.get_pixel(1, 1));
    assert_eq!(dst.get_pixel(0, 0), black());
}

#[test]
fn copy_pixels_overwrites_even_transparent_pixels() {
    let mut src = Buffer::new(1, 1);
    src.clear(Pixel { word: 0 });
    let mut dst = Buffer::new(1, 1);
    dst.copy_pixels(&src, 0, 0, None, None);
    assert_eq!(dst.get_pixel(0, 0), Pixel { word: 0 });
    let mut dst = Buffer::new(1, 1);
    dst.draw(&src, 0, 0, None, None);
    assert_eq!(dst.get_pixel(0, 0), black());
}

#[test]
fn copy_pixels_with_empty_rectangle_does_nothing() {
    let src = numbered(2, 2);
    let mut dst = Buffer::new(3, 3);
    dst.copy_pixels(&src, 0, 0, Some(Rect::new(0, 0, 0, 2)), None);
    dst.copy_pixels(&src, 0, 0, Some(Rect::new(0, 0, 2, -1)), Some(doubled()));
    dst.draw(&src, 0, 0, Some(Rect::new(5, 5, 0, 0)), None);
    assert!(dst.pixels.iter().all(|p| *p == black()));
}

#[test]
fn copy_pixels_scaled() {
    let src = numbered(2, 2);
    let mut dst = Buffer::new(4, 4);
    dst.copy_pixels(&src, 0, 0, None, Some(doubled()));
    for y in 0..4 {
        for x in 0..4 {
            assert_eq!(dst.get_pixel(x, y), src.get_pixel(x / 2, y / 2));
        }
    }
}

#[test]
fn draw_takes_each_path() {
    let src = numbered(2, 2);
    let mut dst = Buffer::new(6, 6);
    dst.draw(&src, 0, 0, None, None);
    assert_eq!(dst.get_pixel(1, 1), src.get_pixel(1, 1));

    let mut dst = Buffer::new(6, 6);
    dst.draw(&src, 0, 0, None, Some(Placement::Plain { x: 3, y: 4 }));
    assert_eq!(dst.get_pixel(0, 0), black());
    assert_eq!(dst.get_pixel(3, 4), src.get_pixel(0, 0));
    assert_eq!(dst.get_pixel(4, 5), src.get_pixel(1, 1));

    let mut dst = Buffer::new(6, 6);
    dst.draw(&src, 0, 0, None, Some(Placement::Scaled { x: 1, y: 1, plan: doubled() }));
    assert_eq!(dst.get_pixel(0, 0), black());
    assert_eq!(dst.get_pixel(1, 1), src.get_pixel(0, 0));
    assert_eq!(dst.get_pixel(4, 4), src.get_pixel(1, 1));
    assert_eq!(dst.get_pixel(5, 5), black());

    let src = numbered(3, 3);
    let mut dst = Buffer::new(6, 6);
    let plan = Rotation {
        p0: Point::new(1, 1),
        p1: Point::new(4, 1),
        p2: Point::new(4, 4),
        p3: Point::new(1, 4),
        quadrant: 0,
        flip_x: false,
        flip_y: false,
        sxi: 4096,
        syi: 0,
        sxoi: 0,
        syoi: 4096,
        sxoi_below: 0,
        syoi_below: 0,
    };
    dst.draw(&src, 0, 0, Some(Rect::new(0, 0, 3, 3)), Some(Placement::Rotated(plan)));
    assert_eq!(dst.get_pixel(1, 1), src.get_pixel(0, 0));
    assert_eq!(dst.get_pixel(2, 2), src.get_pixel(1, 1));
    assert_eq!(dst.get_pixel(3, 1), src.get_pixel(2, 0));
    assert_eq!(dst.get_pixel(1, 3), src.get_pixel(0, 2));
    assert_eq!(dst.get_pixel(4, 1), black());
    assert_eq!(dst.get_pixel(1, 4), black());
    assert_eq!(dst.get_pixel(0, 0), black());
}
