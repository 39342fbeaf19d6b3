use raykernel::color::{Rgb, WriteColor};

#[test]
fn pixel_text_has_three_decimal_channels() {
    assert_eq!(Rgb::new(255, 0, 128).write_color(), "255 0 128");
    assert_eq!(Rgb::new(0, 0, 0).write_color(), "0 0 0");
    assert_eq!(Rgb::new(9, 10, 99).write_color(), "9 10 99");
    assert_eq!(Rgb::new(100, 101, 200).write_color(), "100 101 200");
}

#[test]
fn pixel_text_agrees_with_the_formatter() {
    for r in 0..=255u8 {
        let c = Rgb::new(r, 255 - r, r / 2);
        assert_eq!(c.write_color(), format!("{} {} {}", c.r, c.g, c.b));
    }
}

#[test]
fn channels_are_kept() {
    let c = Rgb::new(1, 2, 3);
    assert_eq!((c.r, c.g, c.b), (1, 2, 3));
    assert_eq!(c, Rgb { r: 1, g: 2, b: 3 });
}
