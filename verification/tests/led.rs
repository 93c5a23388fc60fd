use vesper::led::{led_frame, wheel, Rgb};

#[test]
fn wheel_corners() {
    assert_eq!(wheel(0), Rgb { r: 255, g: 0, b: 0 });
    assert_eq!(wheel(85), Rgb { r: 0, g: 255, b: 0 });
    assert_eq!(wheel(170), Rgb { r: 0, g: 0, b: 255 });
    assert_eq!(wheel(255), Rgb { r: 255, g: 0, b: 0 });
    assert_eq!(wheel(1), Rgb { r: 252, g: 3, b: 0 });
    assert_eq!(wheel(86), Rgb { r: 0, g: 252, b: 3 });
    assert_eq!(wheel(171), Rgb { r: 3, g: 0, b: 252 });
}

#[test]
fn wheel_is_evenly_bright_and_has_no_jumps() {
    for pos in 0..=255u8 {
        let colour = wheel(pos);
        assert_eq!(colour.r as u32 + colour.g as u32 + colour.b as u32, 255);
        if pos < 255 {
            let next = wheel(pos + 1);
            let expected = if pos < 85 {
                Rgb { r: colour.r - 3, g: colour.g + 3, b: colour.b }
            } else if pos < 170 {
                Rgb { r: colour.r, g: colour.g - 3, b: colour.b + 3 }
            } else {
                Rgb { r: colour.r + 3, g: colour.g, b: colour.b - 3 }
            };
            assert_eq!(next, expected);
        }
    }
}

#[test]
fn pictures_spread_round_the_wheel_and_repeat() {
    let first = led_frame(0);
    assert_eq!(first[0], wheel(0));
    assert_eq!(first[1], wheel(9));
    assert_eq!(first[27], wheel(246));
    assert_eq!(led_frame(10)[27], wheel(0));
    assert_eq!(led_frame(256), first);
    assert_eq!(led_frame(1279), led_frame(255));
}
