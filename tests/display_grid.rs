use chip8::Display;

#[test]
fn test_pixel_initialzing() {
    let display = Display::default();
    assert_eq!(display.snapshot()[0][0], 0)
}

#[test]
fn test_set_pixel() {
    let mut display = Display::default();
    assert_eq!(display.set_pixel(10, 10, 1), false);
    assert_eq!(display.snapshot()[10][10], 1)
}

#[test]
fn test_set_pixel_out_of_boundary() {
    let mut display = Display::default();
    assert_eq!(display.set_pixel(65, 33, 1), false);
    assert_eq!(display.snapshot()[1][1], 1);
}

#[test]
fn test_set_pixel_ored() {
    let mut display = Display::default();
    assert_eq!(display.set_pixel(65, 33, 1), false);
    assert_eq!(display.set_pixel(65, 33, 1), true);
}

#[test]
fn clear_twice_leaves_blank_grid() {
    let mut display = Display::default();
    display.set_pixel(3, 4, 1);
    display.set_pixel(63, 31, 1);
    display.clear();
    let once = display.snapshot();
    display.clear();
    let twice = display.snapshot();
    assert_eq!(once, twice);
    assert!(twice.iter().all(|row| row.len() == 64 && row.iter().all(|&p| p == 0)));
    assert_eq!(twice.len(), 32);
}

#[test]
fn wrap_around_hits_the_same_cell() {
    let mut display = Display::default();
    assert_eq!(display.set_pixel(64, 0, 1), false);
    assert_eq!(display.get_pixel(0, 0), 1);
    assert_eq!(display.set_pixel(0, 0, 1), true);
    assert_eq!(display.get_pixel(0, 0), 0);
    assert_eq!(display.set_pixel(0, 32, 1), false);
    assert_eq!(display.snapshot()[0][0], 1);
    assert_eq!(display.set_pixel(0, 0, 1), true);
}

#[test]
fn largest_coordinates_wrap() {
    let mut display = Display::default();
    assert_eq!(display.set_pixel(u16::MAX, u16::MAX, 1), false);
    // 65535 mod 64 = 63, 65535 mod 32 = 31
    assert_eq!(display.snapshot()[31][63], 1);
}

#[test]
fn zero_value_changes_nothing() {
    let mut display = Display::default();
    display.set_pixel(5, 5, 1);
    assert_eq!(display.set_pixel(5, 5, 0), false);
    assert_eq!(display.get_pixel(5, 5), 1);
}
