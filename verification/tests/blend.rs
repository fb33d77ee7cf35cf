use sera::blend::blend_pixel;
use sera::blend::div8;
use sera::blend::div8_table;
use sera::blend::lerp8;
use sera::blend::mul8;
use sera::blend::BlendMode;
use sera::blend::DrawMode;
use sera::pixel::Pixel;
use sera::pixel::RGB_MASK;

const MODES: [BlendMode; 9] = [
    BlendMode::ALPHA,
    BlendMode::COLOR,
    BlendMode::ADD,
    BlendMode::SUBTRACT,
    BlendMode::MULTIPLY,
    BlendMode::LIGHTEN,
    BlendMode::DARKEN,
    BlendMode::SCREEN,
    BlendMode::DIFFERENCE,
];

fn mode(blend: BlendMode, alpha: u8) -> DrawMode {
    DrawMode::new(Pixel { word: RGB_MASK }, blend, alpha)
}

fn blended(m: &DrawMode, d: Pixel, s: Pixel) -> Pixel {
    let mut d = d;
    blend_pixel(m, &mut d, s);
    d
}

#[test]
fn alpha_opaque_source_overwrites() {
    let d = blended(
        &mode(BlendMode::ALPHA, 255),
        Pixel::pixel(0, 0, 0, 255),
        Pixel::pixel(255, 255, 255, 255),
    );
    assert_eq!(d, Pixel::pixel(255, 255, 255, 255));
}

#[test]
fn add_saturates_at_255() {
    let d = blended(
        &mode(BlendMode::ADD, 255),
        Pixel::pixel(200, 10, 10, 255),
        Pixel::pixel(100, 10, 10, 255),
    );
    assert_eq!(d, Pixel::pixel(255, 20, 20, 255));
}

#[test]
fn effective_alpha_of_one_or_less_changes_nothing() {
    let dests = [Pixel::pixel(1, 2, 3, 4), Pixel::pixel(200, 100, 50, 255), Pixel { word: 0 }];
    // (source alpha, global alpha) with (sa * ga) >> 8 <= 1
    let alphas = [(0u8, 255u8), (255, 0), (1, 255), (255, 1), (2, 255), (16, 31), (255, 2)];
    for m in MODES {
        for d in dests {
            for (sa, ga) in alphas {
                let mut dm = mode(m, ga);
                dm.color = Pixel::pixel(10, 20, 30, 0);
                assert_eq!(blended(&dm, d, Pixel::pixel(9, 99, 199, sa)), d);
            }
        }
    }
}

#[test]
fn effective_alpha_of_two_is_not_skipped() {
    // (3 * 255) >> 8 == 2: the translucent path runs and moves the colour.
    let d = blended(
        &mode(BlendMode::ALPHA, 255),
        Pixel::pixel(0, 0, 0, 255),
        Pixel::pixel(255, 255, 255, 3),
    );
    assert_eq!(d, Pixel::pixel(1, 1, 1, 255));
}

#[test]
fn effective_alpha_of_254_writes_the_candidate() {
    let d = Pixel::pixel(200, 100, 50, 77);
    let s = Pixel::pixel(30, 60, 90, 255);
    let expected = [
        Pixel::pixel(30, 60, 90, 255),    // ALPHA
        Pixel { word: RGB_MASK },          // COLOR: the tint itself
        Pixel::pixel(230, 160, 140, 255), // ADD
        Pixel::pixel(170, 40, 0, 255),    // SUBTRACT
        Pixel::pixel(23, 23, 17, 255),    // MULTIPLY
        Pixel::pixel(200, 100, 50, 77),   // LIGHTEN: the destination is brighter
        Pixel::pixel(30, 60, 90, 255),    // DARKEN
        Pixel::pixel(207, 137, 123, 255), // SCREEN
        Pixel::pixel(170, 40, 40, 255),   // DIFFERENCE
    ];
    for (m, e) in MODES.iter().zip(expected.iter()) {
        assert_eq!(blended(&mode(*m, 255), d, s), *e);
    }
}

#[test]
fn lighten_and_darken_keep_the_destination_on_a_tie() {
    let d = Pixel::pixel(10, 20, 30, 200);
    let s = Pixel::pixel(30, 20, 10, 255);
    assert_eq!(blended(&mode(BlendMode::LIGHTEN, 255), d, s), d);
    assert_eq!(blended(&mode(BlendMode::DARKEN, 255), d, s), d);
}

#[test]
fn lighten_compares_full_sums() {
    // the sums 600 and 300 do not fit a byte
    let d = Pixel::pixel(100, 100, 100, 255);
    let s = Pixel::pixel(200, 200, 200, 255);
    assert_eq!(blended(&mode(BlendMode::LIGHTEN, 255), d, s), s);
    assert_eq!(blended(&mode(BlendMode::DARKEN, 255), d, s), d);
}

#[test]
fn subtract_floors_at_zero() {
    let d = blended(
        &mode(BlendMode::SUBTRACT, 255),
        Pixel::pixel(10, 100, 0, 255),
        Pixel::pixel(100, 10, 1, 255),
    );
    assert_eq!(d, Pixel::pixel(0, 90, 0, 255));
}

#[test]
fn tint_multiplies_the_source_colours() {
    let mut m = mode(BlendMode::ALPHA, 255);
    m.color = Pixel::pixel(128, 255, 0, 0);
    let d = blended(&m, Pixel::pixel(0, 0, 0, 255), Pixel::pixel(200, 200, 200, 255));
    assert_eq!(d, Pixel::pixel(100, 199, 0, 255));
}

#[test]
fn white_tint_with_alpha_is_a_tint() {
    // only the word RGB_MASK stands for "no tint"
    let mut m = mode(BlendMode::ALPHA, 255);
    m.color = Pixel::pixel(255, 255, 255, 255);
    let d = blended(&m, Pixel::pixel(0, 0, 0, 255), Pixel::pixel(255, 255, 255, 255));
    assert_eq!(d, Pixel::pixel(254, 254, 254, 255));
}

#[test]
fn opaque_destination_is_interpolated_and_stays_opaque() {
    // effective alpha (128 * 255) >> 8 == 127
    let d = blended(
        &mode(BlendMode::ALPHA, 255),
        Pixel::pixel(100, 200, 0, 255),
        Pixel::pixel(200, 100, 255, 128),
    );
    // 100 + ((100 * 127) >> 8) = 149, 200 + ((-100 * 127) >> 8) = 150, (255 * 127) >> 8 = 126
    assert_eq!(d, Pixel::pixel(149, 150, 126, 255));
}

#[test]
fn translucent_destination_is_composited() {
    let d = blended(
        &mode(BlendMode::ALPHA, 255),
        Pixel::pixel(100, 50, 25, 128),
        Pixel::pixel(200, 100, 50, 128),
    );
    assert_eq!(d, Pixel::pixel(165, 81, 40, 192));
}

#[test]
fn mul8_and_lerp8_values() {
    assert_eq!(mul8(255, 255), 254);
    assert_eq!(mul8(128, 255), 127);
    assert_eq!(mul8(0, 255), 0);
    assert_eq!(lerp8(100, 200, 128), 150);
    assert_eq!(lerp8(200, 100, 128), 150);
    assert_eq!(lerp8(0, 255, 100), 99);
    assert_eq!(lerp8(255, 0, 100), 155);
    assert_eq!(lerp8(7, 7, 255), 7);
}

#[test]
fn reciprocal_table_entries() {
    assert_eq!(div8(1, 2), 128);
    assert_eq!(div8(100, 200), 128);
    assert_eq!(div8(3, 7), 109);
    // the quotient 512 does not fit eight bits: the low bits stay
    assert_eq!(div8(2, 1), 0);
    assert_eq!(div8(255, 255), 0);
    assert_eq!(div8(3, 2), 128);
    for a in 0..=255u8 {
        assert_eq!(div8(a, 0), 0);
        assert_eq!(div8(0, a), 0);
    }
}

#[test]
fn reciprocal_table_matches_division() {
    let t = div8_table();
    assert_eq!(t.len(), 256);
    for a in 0..256usize {
        assert_eq!(t[a].len(), 256);
        assert_eq!(t[a][0], 0);
        for b in 1..256usize {
            let q = if a == 0 { 0 } else { ((a << 8) / b) & 0xff };
            assert_eq!(t[a][b] as usize, q);
            assert_eq!(t[a][b], div8(a as u8, b as u8));
            if a >= 1 && a < b {
                assert_eq!(t[a][b] as usize, (a << 8) / b);
            }
        }
    }
}
