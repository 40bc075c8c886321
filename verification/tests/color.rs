use spirals::fixed::ONE;
use spirals::tools::{Color, Lerp};

const BG: Color = Color { r: 10, g: 200, b: 30, a: 255 };
const FG: Color = Color { r: 250, g: 20, b: 30, a: 0 };

#[test]
fn black_is_opaque() {
    assert_eq!(Color::black(), Color { r: 0, g: 0, b: 0, a: 255 });
}

#[test]
fn from_hex_splits_the_channels() {
    assert_eq!(Color::from_hex(0x220000), Color { r: 0x22, g: 0, b: 0, a: 255 });
    assert_eq!(Color::from_hex(0x002211), Color { r: 0, g: 0x22, b: 0x11, a: 255 });
    assert_eq!(Color::from_hex(0x00ffcc), Color { r: 0, g: 0xff, b: 0xcc, a: 255 });
    assert_eq!(Color::from_hex(0xffffff), Color { r: 255, g: 255, b: 255, a: 255 });
    assert_eq!(Color::from_hex(0), Color { r: 0, g: 0, b: 0, a: 255 });
}

#[test]
fn from_hex_ignores_the_top_byte() {
    assert_eq!(Color::from_hex(0xab12_3456), Color { r: 0x12, g: 0x34, b: 0x56, a: 255 });
}

#[test]
fn lerp_at_zero_is_the_background() {
    assert_eq!(BG.lerp(&FG, 0), BG);
    assert_eq!(FG.lerp(&BG, 0), FG);
}

#[test]
fn lerp_at_one_is_the_foreground() {
    assert_eq!(BG.lerp(&FG, ONE), FG);
    assert_eq!(FG.lerp(&BG, ONE), BG);
}

#[test]
fn lerp_of_a_colour_with_itself_is_that_colour() {
    let colours = [BG, FG, Color::black(), Color::from_hex(0xffffff), Color::from_hex(0x660000)];
    for c in colours {
        let mut alpha: i64 = 0;
        while alpha <= ONE {
            assert_eq!(c.lerp(&c, alpha), c);
            alpha += 13_331;
        }
        assert_eq!(c.lerp(&c, ONE), c);
        assert_eq!(c.lerp(&c, -5 * ONE), c);
        assert_eq!(c.lerp(&c, i64::MAX), c);
        assert_eq!(c.lerp(&c, i64::MIN), c);
    }
}

#[test]
fn lerp_weighs_each_channel() {
    assert_eq!(BG.lerp(&FG, 250_000), Color { r: 70, g: 155, b: 30, a: 191 });
    assert_eq!(
        Color::black().lerp(&Color::from_hex(0xffffff), 500_000),
        Color { r: 127, g: 127, b: 127, a: 255 }
    );
    assert_eq!(
        Color::black().lerp(&Color::from_hex(0x220000), 887_028),
        Color { r: 30, g: 0, b: 0, a: 255 }
    );
}

#[test]
fn lerp_holds_each_channel_to_its_range() {
    assert_eq!(BG.lerp(&FG, -500_000), Color { r: 0, g: 255, b: 30, a: 255 });
    assert_eq!(BG.lerp(&FG, 2_000_000), Color { r: 255, g: 0, b: 30, a: 0 });
    assert_eq!(BG.lerp(&FG, i64::MAX), Color { r: 255, g: 0, b: 30, a: 0 });
    assert_eq!(BG.lerp(&FG, i64::MIN), Color { r: 0, g: 255, b: 30, a: 255 });
}

#[test]
fn lerp_stays_between_its_ends() {
    let mut alpha: i64 = 0;
    while alpha <= ONE {
        let c = BG.lerp(&FG, alpha);
        assert!(BG.r <= c.r && c.r <= FG.r);
        assert!(FG.g <= c.g && c.g <= BG.g);
        assert_eq!(c.b, 30);
        assert!(FG.a <= c.a && c.a <= BG.a);
        alpha += 7_777;
    }
}
