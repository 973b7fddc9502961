use dtdl_parser::led_display::{
    all_steps_are_fit, channels, gradient_window, running_led_position, steps_are_fit, Display,
};

fn scaled(from: u8, to: u8, start: usize, end: usize) -> [u8; 32] {
    let divider = if end <= start { 32.0 } else { (end - start) as f64 };
    let step = if from > to { (from - to) as f64 / divider } else { (to - from) as f64 / divider };
    let mut steps = [0u8; 32];
    for i in 0..32 {
        steps[i] = (i as f64 * step) as u8;
    }
    steps
}

#[test]
fn new_display_is_dark() {
    let display = Display::default();
    assert_eq!(display.frame().len(), 256);
    assert!(display.frame().iter().all(|c| *c == 0));
}

#[test]
fn all_leds_show_one_colour() {
    let mut display = Display::new();
    display.setAllLedsToRgb(0x00200000);
    assert_eq!(display.frame().len(), 256);
    assert!(display.frame().iter().all(|c| *c == 0x00200000));
}

#[test]
fn only_one_led_is_lit() {
    let mut display = Display::new();
    display.setAllLedsToRgb(0x123456);
    display.setOnlyOneLedToRgb(17, 0xff0000);
    for (i, c) in display.frame().iter().enumerate() {
        assert_eq!(*c, if i == 17 { 0xff0000 } else { 0 });
    }
    display.setOnlyOneLedToRgb(256, 0xff0000);
    assert!(display.frame().iter().all(|c| *c == 0));
}

#[test]
fn gradient_of_one_channel_rising() {
    let mut display = Display::new();
    let steps = scaled(0, 31, 0, 31);
    assert!(steps_are_fit(0, 31, 0, 31, &steps));
    let g = display.generateGradient8(0, 31, 0, 31, &steps);
    for k in 0..32 {
        assert_eq!(g[k] as usize, k);
    }
}

#[test]
fn gradient_of_one_channel_falling_inside_a_window() {
    let mut display = Display::new();
    let steps = scaled(200, 100, 10, 30);
    assert!(steps_are_fit(200, 100, 10, 30, &steps));
    let g = display.generateGradient8(200, 100, 10, 30, &steps);
    for k in 0..10 {
        assert_eq!(g[k], 200);
    }
    assert_eq!(g[10], 200);
    assert_eq!(g[11], 195);
    assert_eq!(g[20], 150);
    assert_eq!(g[30], 100);
    assert_eq!(g[31], 100);
}

#[test]
fn gradient_over_one_column() {
    let mut display = Display::new();
    let steps = scaled(7, 200, 5, 5);
    let g = display.generateGradient8(7, 200, 5, 5, &steps);
    for k in 0..32 {
        assert_eq!(g[k], if k <= 5 { 7 } else { 200 });
    }
}

#[test]
fn steps_that_do_not_fit_are_told() {
    let mut steps = [0u8; 32];
    for i in 3..32 {
        steps[i] = 11;
    }
    assert!(!steps_are_fit(0, 10, 0, 31, &steps));
    assert!(steps_are_fit(0, 10, 0, 2, &steps));
    assert!(steps_are_fit(0, 11, 0, 31, &steps));
    steps[5] = 10;
    assert!(!steps_are_fit(0, 11, 0, 31, &steps));
    assert!(steps_are_fit(0, 11, 0, 4, &steps));
    steps[0] = 1;
    assert!(!steps_are_fit(0, 11, 0, 4, &steps));
    assert!(steps_are_fit(0, 255, 0, 31, &[0u8; 32]));
    assert!(!steps_are_fit(0, 255, 5, 4, &[0u8; 32]));
    assert!(!steps_are_fit(0, 255, 0, 32, &[0u8; 32]));
}

#[test]
fn channels_of_a_colour() {
    assert_eq!(channels(0x00123456), (0x12, 0x34, 0x56));
    assert_eq!(channels(0xff200000), (0x20, 0x00, 0x00));
}

#[test]
fn gradient_of_a_colour() {
    let mut display = Display::new();
    let (left, right) = (0x00200000u32, 0x00000020u32);
    let red = scaled(0x20, 0, 0, 31);
    let green = scaled(0, 0, 0, 31);
    let blue = scaled(0, 0x20, 0, 31);
    assert!(all_steps_are_fit(left, right, 0, 31, &red, &green, &blue));
    let g = display.generateGradient32(left, right, 0, 31, &red, &green, &blue);
    assert_eq!(g[0], 0x00200000);
    assert_eq!(g[31], 0x00000020);
    for k in 0..32 {
        let r = 0x20 - red[k] as u32;
        let b = blue[k] as u32;
        assert_eq!(g[k], (r << 16) | b);
    }
    display.setRgbGradient(left, right, &red, &green, &blue);
    for (i, c) in display.frame().iter().enumerate() {
        assert_eq!(*c, g[i / 8]);
    }
    display.setRgbGradientMod(left, right, 0, 31, &red, &green, &blue);
    assert_eq!(display.frame()[255], 0x00000020);
}

#[test]
fn running_light_goes_up_and_down() {
    let seen: Vec<u32> = (0..8).map(|s| running_led_position(4, s)).collect();
    assert_eq!(seen, vec![0, 1, 2, 3, 2, 1, 0, 1]);
    assert_eq!(running_led_position(2, 0), 0);
    assert_eq!(running_led_position(2, 1), 1);
    assert_eq!(running_led_position(2, 2), 0);
}

#[test]
fn gradient_window_moves_through_four_phases() {
    assert_eq!(gradient_window(0), (0, 0));
    assert_eq!(gradient_window(30), (0, 30));
    assert_eq!(gradient_window(31), (0, 31));
    assert_eq!(gradient_window(61), (30, 31));
    assert_eq!(gradient_window(62), (31, 31));
    assert_eq!(gradient_window(92), (1, 31));
    assert_eq!(gradient_window(93), (0, 31));
    assert_eq!(gradient_window(123), (0, 1));
    assert_eq!(gradient_window(124), (0, 0));
}

#[test]
fn a_gradient_starts_at_its_colour_and_moves_one_way() {
    let mut display = Display::new();
    for (from, to, start, end) in [(0u8, 255u8, 0usize, 31usize), (200, 100, 10, 30), (7, 7, 3, 9)] {
        let steps = scaled(from, to, start, end);
        assert!(steps_are_fit(from, to, start, end, &steps));
        let g = display.generateGradient8(from, to, start, end, &steps);
        assert_eq!(g[start], from);
        for k in start..end {
            if from <= to {
                assert!(g[k] <= g[k + 1] && g[k + 1] <= to);
            } else {
                assert!(g[k] >= g[k + 1] && g[k + 1] >= to);
            }
        }
    }
}
