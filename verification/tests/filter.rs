use sera::buffer::Buffer;
use sera::pixel::ColorChannel;
use sera::pixel::Pixel;
use sera::rand::RandState;

#[test]
fn rand_state_from_seed() {
    let s = RandState::new(0x1234_5678);
    assert_eq!((s.x, s.y, s.z, s.w), (0x1200_0001, 0x0034_0000, 0x0000_5600, 0x0000_0078));
    let s = RandState::new(0);
    assert_eq!((s.x, s.y, s.z, s.w), (1, 0, 0, 0));
}

#[test]
fn rand_sequence() {
    let mut s = RandState::new(0x1234_5678);
    let drawn: Vec<u32> = (0..6).map(|_| s.rand()).collect();
    assert_eq!(
        drawn,
        vec![0x1212_0871, 0xb286_3e33, 0xb034_ce35, 0xb037_1b8b, 0x32e4_dc7c, 0xb110_0bb5]
    );
    let mut s = RandState::new(7);
    let drawn: Vec<u32> = (0..4).map(|_| s.rand()).collect();
    assert_eq!(drawn, vec![0x80e, 0x80e, 0x80e, 0x3031]);
}

#[test]
fn rand_hands_out_its_last_word() {
    let mut s = RandState::new(99);
    let r = s.rand();
    assert_eq!(r, s.w);
}

#[test]
fn noise_with_low_above_high_has_a_range_of_one() {
    for grey in [true, false] {
        let mut b = Buffer::new(16, 16);
        b.noise(12345, 250, 10, grey);
        assert!(b.pixels.iter().all(|p| *p == Pixel::pixel(250, 250, 250, 255)));
    }
}

#[test]
fn noise_caps_low_at_254() {
    let mut b = Buffer::new(8, 8);
    b.noise(1, 255, 255, false);
    assert!(b.pixels.iter().all(|p| *p == Pixel::pixel(254, 254, 254, 255)));
}

#[test]
fn noise_grey_levels() {
    let mut b = Buffer::new(2, 2);
    b.noise(7, 10, 20, true);
    let levels: Vec<u8> = b.pixels.iter().map(|p| p.rgba().r).collect();
    assert_eq!(levels, vec![14, 14, 14, 19]);
    for p in &b.pixels {
        let c = p.rgba();
        assert_eq!((c.r, c.g, c.b, c.a), (c.r, c.r, c.r, 255));
    }
}

#[test]
fn noise_colour_levels() {
    let mut b = Buffer::new(2, 2);
    b.noise(7, 10, 20, false);
    let colours: Vec<(u8, u8, u8, u8)> = b
        .pixels
        .iter()
        .map(|p| {
            let c = p.rgba();
            (c.r, c.g, c.b, c.a)
        })
        .collect();
    assert_eq!(colours, vec![(10, 18, 14, 255), (10, 18, 14, 255), (10, 18, 14, 255), (10, 18, 19, 255)]);
}

#[test]
fn noise_is_deterministic_and_in_range() {
    let mut a = Buffer::new(32, 32);
    let mut b = Buffer::new(32, 32);
    a.noise(0xdead_beef, 40, 200, false);
    b.noise(0xdead_beef, 40, 200, false);
    assert_eq!(a.pixels, b.pixels);
    for p in &a.pixels {
        let c = p.rgba();
        for v in [c.r, c.g, c.b] {
            assert!((40..200).contains(&v));
        }
        assert_eq!(c.a, 255);
    }
    b.noise(0xdead_bee0, 40, 200, false);
    assert_ne!(a.pixels, b.pixels);
}

#[test]
fn desaturate_fully_writes_the_grey_level() {
    let mut b = Buffer::new(3, 1);
    b.pixels[0] = Pixel::pixel(10, 20, 30, 7);
    b.pixels[1] = Pixel::pixel(255, 255, 255, 255);
    b.pixels[2] = Pixel::pixel(200, 100, 0, 0);
    b.desaturate(254);
    assert_eq!(b.pixels, vec![Pixel::pixel(19, 19, 19, 7), Pixel::pixel(254, 254, 254, 255), Pixel::pixel(99, 99, 99, 0)]);
}

#[test]
fn desaturate_partly_moves_toward_the_grey_level() {
    let mut b = Buffer::new(1, 1);
    b.pixels[0] = Pixel::pixel(200, 100, 0, 9);
    b.desaturate(128);
    assert_eq!(b.pixels[0], Pixel::pixel(149, 99, 49, 9));
    let mut b = Buffer::new(1, 1);
    b.pixels[0] = Pixel::pixel(200, 100, 0, 9);
    b.desaturate(0);
    assert_eq!(b.pixels[0], Pixel::pixel(200, 100, 0, 9));
}

#[test]
fn mask_multiplies_one_channel() {
    let mut m = Buffer::new(2, 1);
    m.pixels[0] = Pixel::pixel(128, 64, 255, 0);
    m.pixels[1] = Pixel::pixel(255, 255, 255, 128);
    let start = vec![Pixel::pixel(200, 200, 200, 200), Pixel::pixel(100, 100, 100, 100)];
    let cases = [
        (Some(ColorChannel::R), Pixel::pixel(100, 200, 200, 200), Pixel::pixel(99, 100, 100, 100)),
        (Some(ColorChannel::G), Pixel::pixel(200, 50, 200, 200), Pixel::pixel(100, 99, 100, 100)),
        (Some(ColorChannel::B), Pixel::pixel(200, 200, 199, 200), Pixel::pixel(100, 100, 99, 100)),
        (Some(ColorChannel::A), Pixel::pixel(200, 200, 200, 0), Pixel::pixel(100, 100, 100, 50)),
        (None, Pixel::pixel(200, 200, 200, 0), Pixel::pixel(100, 100, 100, 50)),
    ];
    for (channel, first, second) in cases {
        let mut b = Buffer::new(2, 1);
        b.pixels = start.clone();
        b.mask(&m, channel);
        assert_eq!(b.pixels, vec![first, second]);
    }
}

#[test]
fn check_buffer_size_compares_both_extents() {
    let a = Buffer::new(2, 3);
    assert!(Buffer::check_buffer_size(&a, &Buffer::new(2, 3)));
    assert!(!Buffer::check_buffer_size(&a, &Buffer::new(2, 4)));
    assert!(!Buffer::check_buffer_size(&a, &Buffer::new(3, 3)));
    assert!(!Buffer::check_buffer_size(&a, &Buffer::new(3, 2)));
}

#[test]
fn get_channel_picks_by_name() {
    let p = Pixel::pixel(1, 2, 3, 4);
    assert_eq!(Buffer::get_channel(p, ColorChannel::R), 1);
    assert_eq!(Buffer::get_channel(p, ColorChannel::G), 2);
    assert_eq!(Buffer::get_channel(p, ColorChannel::B), 3);
    assert_eq!(Buffer::get_channel(p, ColorChannel::A), 4);
}

#[test]
fn palette_spreads_the_levels_over_the_entries() {
    let pal = [Pixel::color(1, 2, 3), Pixel::color(4, 5, 6), Pixel::color(7, 8, 9), Pixel::pixel(10, 11, 12, 0)];
    let mut b = Buffer::new(6, 1);
    b.pixels[0] = Pixel::pixel(0, 0, 0, 11);
    b.pixels[1] = Pixel::pixel(63, 0, 10, 22);
    b.pixels[2] = Pixel::pixel(0, 64, 10, 33);
    b.pixels[3] = Pixel::pixel(5, 6, 128, 44);
    b.pixels[4] = Pixel::pixel(200, 191, 3, 55);
    b.pixels[5] = Pixel::pixel(255, 255, 255, 66);
    b.palette(&pal);
    // the brightest channel v picks the entry (v * 4) >> 8
    assert_eq!(
        b.pixels,
        vec![
            Pixel::pixel(1, 2, 3, 11),
            Pixel::pixel(1, 2, 3, 22),
            Pixel::pixel(4, 5, 6, 33),
            Pixel::pixel(7, 8, 9, 44),
            Pixel::pixel(10, 11, 12, 55),
            Pixel::pixel(10, 11, 12, 66),
        ]
    );
}

#[test]
fn palette_of_one_colour_and_of_many() {
    let mut b = Buffer::new(3, 1);
    b.pixels[0] = Pixel::pixel(0, 0, 0, 1);
    b.pixels[1] = Pixel::pixel(9, 200, 9, 2);
    b.pixels[2] = Pixel::pixel(255, 0, 0, 3);
    b.palette(&[Pixel::color(7, 7, 7)]);
    assert_eq!(b.pixels, vec![Pixel::pixel(7, 7, 7, 1), Pixel::pixel(7, 7, 7, 2), Pixel::pixel(7, 7, 7, 3)]);

    let greys: Vec<Pixel> = (0..256u32).map(|k| Pixel::color(k as u8, k as u8, k as u8)).collect();
    let mut b = Buffer::new(3, 1);
    b.pixels[0] = Pixel::pixel(0, 0, 0, 1);
    b.pixels[1] = Pixel::pixel(9, 200, 9, 2);
    b.pixels[2] = Pixel::pixel(255, 0, 0, 3);
    b.palette(&greys);
    assert_eq!(b.pixels, vec![Pixel::pixel(0, 0, 0, 1), Pixel::pixel(200, 200, 200, 2), Pixel::pixel(255, 255, 255, 3)]);

    // 512 colours: the level v picks the entry 2 * v
    let many: Vec<Pixel> = (0..512u32).map(|k| Pixel::color((k / 2) as u8, (k % 256) as u8, 0)).collect();
    let mut b = Buffer::new(2, 1);
    b.pixels[0] = Pixel::pixel(0, 0, 200, 1);
    b.pixels[1] = Pixel::pixel(255, 0, 0, 2);
    b.palette(&many);
    assert_eq!(b.pixels, vec![Pixel::pixel(200, 144, 0, 1), Pixel::pixel(255, 254, 0, 2)]);
}

#[test]
fn xorshift64star_sequence() {
    let mut x: u64 = (1 << 32) | 5;
    let first = Buffer::xorshift64star(&mut x);
    assert_eq!(x, 0x0200_2001_4a14_0024);
    assert_eq!(first, 0x7f36_8df7_d393_1814);
    assert_eq!(Buffer::xorshift64star(&mut x), 0xe8b9_c8cc_b08d_1284);
    assert_eq!(Buffer::xorshift64star(&mut x), 0xc9ad_52f1_6b6b_a0df);
}

#[test]
fn dissolve_clears_alpha_where_the_draw_is_below_the_amount() {
    // the low bytes of the first six draws for the seed 5: 20, 132, 223, 43, 2, 192
    let mut b = Buffer::new(6, 1);
    b.clear(Pixel::pixel(1, 2, 3, 200));
    b.dissolve(44, 5);
    let alphas: Vec<u8> = b.pixels.iter().map(|p| p.rgba().a).collect();
    assert_eq!(alphas, vec![0, 200, 200, 0, 0, 200]);
    assert!(b.pixels.iter().all(|p| (p.rgba().r, p.rgba().g, p.rgba().b) == (1, 2, 3)));
    // a draw equal to the amount leaves the pixel
    let mut b = Buffer::new(6, 1);
    b.clear(Pixel::pixel(1, 2, 3, 200));
    b.dissolve(43, 5);
    let alphas: Vec<u8> = b.pixels.iter().map(|p| p.rgba().a).collect();
    assert_eq!(alphas, vec![0, 200, 200, 200, 0, 200]);
}

#[test]
fn dissolve_by_nothing_changes_nothing() {
    let mut b = Buffer::new(4, 4);
    b.noise(3, 0, 255, false);
    let before = b.pixels.clone();
    b.dissolve(0, 77);
    assert_eq!(b.pixels, before);
}
