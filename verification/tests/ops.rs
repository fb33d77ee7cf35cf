use sera::pixel::Channel;
use sera::pixel::Pixel;
use sera::rect::Rect;

#[test]
fn channel_arithmetic_wraps_around() {
    let a = Channel::new(200, 10, 255, 0);
    let b = Channel::new(100, 20, 255, 0);
    assert_eq!(a + b, Channel::new(44, 30, 254, 0));
    assert_eq!(a - b, Channel::new(100, 246, 0, 0));
    assert_eq!(a * b, Channel::new(32, 200, 1, 0));
}

#[test]
fn channel_division_by_zero_is_zero() {
    let a = Channel::new(200, 10, 255, 7);
    let b = Channel::new(100, 20, 0, 7);
    assert_eq!(a / b, Channel::new(2, 0, 0, 1));
}

#[test]
fn pixel_arithmetic_works_on_the_channels() {
    let a = Pixel::pixel(200, 10, 255, 0);
    let b = Pixel::pixel(100, 20, 255, 0);
    assert_eq!(a + b, Pixel::pixel(44, 30, 254, 0));
    assert_eq!(a - b, Pixel::pixel(100, 246, 0, 0));
    assert_eq!(a * b, Pixel::pixel(32, 200, 1, 0));
    assert_eq!(a / b, Pixel::pixel(2, 0, 1, 0));
    // no carry passes from one channel to the next
    assert_eq!(Pixel { word: 0x0000_00ff } + Pixel { word: 0x0000_0001 }, Pixel { word: 0 });
}

#[test]
fn rect_arithmetic_works_on_the_fields() {
    let a = Rect::new(7, -8, 9, 10);
    let b = Rect::new(2, 0, -3, 5);
    assert_eq!(a + b, Rect::new(9, -8, 6, 15));
    assert_eq!(a - b, Rect::new(5, -8, 12, 5));
    assert_eq!(a * b, Rect::new(14, 0, -27, 50));
    assert_eq!(a / b, Rect::new(3, -8, -3, 2));
    assert_eq!(-a, Rect::new(-7, 8, -9, -10));
}
