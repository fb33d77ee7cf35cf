use sera::buffer::Buffer;
use sera::pixel::Pixel;
use sera::rect::Rect;

fn from_rows(rows: &[&str]) -> Buffer {
    let h = rows.len() as i32;
    let w = rows[0].len() as i32;
    let mut b = Buffer::new(w, h);
    for (y, row) in rows.iter().enumerate() {
        for (x, c) in row.bytes().enumerate() {
            b.pixels[y * w as usize + x] = Pixel { word: (c - b'0') as u32 };
        }
    }
    b
}

fn rows_of(b: &Buffer) -> Vec<String> {
    let (w, h) = b.get_size();
    (0..h).map(|y| (0..w).map(|x| format!("{}", b.get_pixel(x, y).word)).collect()).collect()
}

#[test]
fn flood_fill_recolours_the_region_of_the_seed() {
    let mut b = from_rows(&["00100", "00100", "11100", "00000"]);
    b.flood_fill(Pixel { word: 7 }, 0, 0);
    assert_eq!(rows_of(&b), vec!["77100", "77100", "11100", "00000"]);
    b.flood_fill(Pixel { word: 5 }, 4, 3);
    assert_eq!(rows_of(&b), vec!["77155", "77155", "11155", "55555"]);
}

#[test]
fn flood_fill_does_not_pass_between_corners() {
    let mut b = from_rows(&["010", "101", "010"]);
    b.flood_fill(Pixel { word: 7 }, 1, 1);
    assert_eq!(rows_of(&b), vec!["010", "171", "010"]);
    b.flood_fill(Pixel { word: 5 }, 1, 0);
    assert_eq!(rows_of(&b), vec!["050", "171", "010"]);
}

#[test]
fn flood_fill_winds_through_a_spiral() {
    let mut b = from_rows(&["0000000", "1111110", "0000010", "0111010", "0100010", "0111110", "0000000"]);
    b.flood_fill(Pixel { word: 7 }, 0, 0);
    assert_eq!(
        rows_of(&b),
        vec!["7777777", "1111117", "7777717", "7111717", "7177717", "7111117", "7777777"]
    );
}

#[test]
fn flood_fill_with_the_colour_of_the_seed_changes_nothing() {
    let mut b = from_rows(&["001", "011", "111"]);
    b.flood_fill(Pixel { word: 0 }, 0, 0);
    assert_eq!(rows_of(&b), vec!["001", "011", "111"]);
}

#[test]
fn flood_fill_from_outside_changes_nothing() {
    let mut b = from_rows(&["00", "00"]);
    for (x, y) in [(-1, 0), (0, -1), (2, 0), (0, 2), (i32::MIN, i32::MAX)] {
        b.flood_fill(Pixel { word: 7 }, x, y);
    }
    assert_eq!(rows_of(&b), vec!["00", "00"]);
}

#[test]
fn flood_fill_ignores_clip_rectangle_and_mode() {
    let mut b = from_rows(&["000", "000"]);
    b.set_clip(Rect::new(0, 0, 1, 1));
    b.set_alpha(0);
    b.flood_fill(Pixel { word: 3 }, 2, 1);
    assert_eq!(rows_of(&b), vec!["333", "333"]);
}

#[test]
fn flood_fill_of_a_large_region_needs_no_deep_stack() {
    let mut b = Buffer::new(700, 700);
    b.flood_fill(Pixel { word: 9 }, 350, 350);
    assert!(b.pixels.iter().all(|p| p.word == 9));
}
