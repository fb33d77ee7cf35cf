use sera::buffer::Buffer;
use sera::draw::rotate_scaled;
use sera::pixel::Pixel;
use sera::placement::Rotation;
use sera::rect::Point;
use sera::rect::Rect;

const NAMES: &[u8] = b"0123456789abcdefghijklmnopqrstuvwxyz";

// A source whose pixel number i is opaque and carries i in its blue channel.
fn numbered(w: i32, h: i32) -> Buffer {
    let mut b = Buffer::new(w, h);
    for i in 0..(w * h) as usize {
        b.pixels[i] = Pixel::pixel(1, 1, i as u8, 255);
    }
    b
}

// The destination as text: the name of the source pixel that a cell shows,
// or a dot where the cell is still black.
fn shown(b: &Buffer) -> Vec<String> {
    let (w, h) = b.get_size();
    (0..h)
        .map(|y| {
            (0..w)
                .map(|x| {
                    let c = b.get_pixel(x, y).rgba();
                    if c.r == 1 { NAMES[c.b as usize] as char } else { '.' }
                })
                .collect()
        })
        .collect()
}

#[test]
fn turn_by_a_twelfth() {
    let src = numbered(6, 6);
    let mut dst = Buffer::new(16, 16);
    let plan = Rotation {
        p0: Point::new(7, 4),
        p1: Point::new(12, 7),
        p2: Point::new(9, 12),
        p3: Point::new(4, 9),
        quadrant: 0,
        flip_x: false,
        flip_y: false,
        sxi: 3547,
        syi: -2047,
        sxoi: 0,
        syoi: 4915,
        sxoi_below: 8192,
        syoi_below: 0,
    };
    rotate_scaled(&mut dst, &src, Rect::new(0, 0, 6, 6), &plan);
    assert_eq!(
        shown(&dst),
        vec![
            "................",
            "................",
            "................",
            "................",
            "................",
            "......60........",
            ".....c6723......",
            ".....iide9a.....",
            "....oojkfgb.....",
            "....uuvqrm......",
            ".....wwxst......",
            ".......yy.......",
            "................",
            "................",
            "................",
            "................",
        ]
    );
}

#[test]
fn turn_of_a_mirrored_and_scaled_image() {
    let src = numbered(4, 4);
    let mut dst = Buffer::new(16, 16);
    let plan = Rotation {
        p0: Point::new(12, 8),
        p1: Point::new(8, 12),
        p2: Point::new(4, 8),
        p3: Point::new(8, 4),
        quadrant: 1,
        flip_x: true,
        flip_y: false,
        sxi: -1930,
        syi: -1930,
        sxoi: 4096,
        syoi: 0,
        sxoi_below: 0,
        syoi_below: -4096,
    };
    rotate_scaled(&mut dst, &src, Rect::new(0, 0, 4, 4), &plan);
    assert_eq!(
        shown(&dst),
        vec![
            "................",
            "................",
            "................",
            "................",
            "................",
            ".......ef.......",
            "......deeb......",
            ".....cddaa7.....",
            ".....cc99663....",
            "......88552.....",
            ".......441......",
            "........0.......",
            "................",
            "................",
            "................",
            "................",
        ]
    );
}

#[test]
fn turn_of_a_sub_rectangle_into_a_clip_rectangle() {
    let src = numbered(6, 6);
    let mut dst = Buffer::new(16, 16);
    dst.set_clip(Rect::new(4, 3, 8, 9));
    let plan = Rotation {
        p0: Point::new(8, 8),
        p1: Point::new(1, 6),
        p2: Point::new(2, 2),
        p3: Point::new(9, 5),
        quadrant: 2,
        flip_x: false,
        flip_y: false,
        sxi: -1924,
        syi: 1400,
        sxoi: 0,
        syoi: -4096,
        sxoi_below: -8192,
        syoi_below: 0,
    };
    rotate_scaled(&mut dst, &src, Rect::new(1, 1, 4, 4), &plan);
    assert_eq!(
        shown(&dst),
        vec![
            "................",
            "................",
            "................",
            "................",
            "....rr..........",
            "....llkq........",
            "....ffek........",
            ".....88d........",
            "................",
            "................",
            "................",
            "................",
            "................",
            "................",
            "................",
            "................",
        ]
    );
}

#[test]
fn turn_into_the_fourth_quadrant_mirrored_in_y() {
    let src = numbered(5, 5);
    let mut dst = Buffer::new(12, 12);
    let plan = Rotation {
        p0: Point::new(3, 7),
        p1: Point::new(5, 3),
        p2: Point::new(9, 5),
        p3: Point::new(7, 9),
        quadrant: 3,
        flip_x: false,
        flip_y: true,
        sxi: 1400,
        syi: 3848,
        sxoi: -5120,
        syoi: 0,
        sxoi_below: 0,
        syoi_below: 10240,
    };
    rotate_scaled(&mut dst, &src, Rect::new(0, 0, 5, 5), &plan);
    assert_eq!(
        shown(&dst),
        vec![
            "............",
            "............",
            "............",
            "............",
            "....noj.....",
            "....mmid8...",
            "...llgc7....",
            "....kfb6....",
            "......5.....",
            "............",
            "............",
            "............",
        ]
    );
}
