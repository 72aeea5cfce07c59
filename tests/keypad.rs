use chip8::KeyboardFirm;

#[test]
fn lowest_pressed_key_is_reported() {
    let mut keys = KeyboardFirm::default();
    assert_eq!(keys.get_key_pressed(), None);
    keys.press_key(vec![15]);
    assert_eq!(keys.get_key_pressed(), Some(15));
    keys.press_key(vec![9, 4, 200]);
    assert_eq!(keys.get_key_pressed(), Some(4));
    assert!(keys.is_key_pressed(9));
    assert!(!keys.is_key_pressed(200));
    keys.key_up(vec![4]);
    assert_eq!(keys.get_key_pressed(), Some(9));
    assert!(!keys.is_key_pressed(4));
    keys.key_up(vec![9, 15]);
    assert_eq!(keys.get_key_pressed(), None);
}
