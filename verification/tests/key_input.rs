use cathedral::input::{Key, KeyInput};

#[test]
fn is_down_reads_the_held_set() {
    let mut k = KeyInput::default();
    k.down.left = true;
    k.down.fire = true;
    assert!(k.is_down(Key::Left));
    assert!(k.is_down(Key::Fire));
    assert!(!k.is_down(Key::Right));
    assert!(!k.is_down(Key::Up));
    assert!(!k.is_down(Key::Down));
    assert!(!k.is_down(Key::Escape));
    // Held is independent of newly pressed.
    assert!(!k.is_pressed(Key::Fire));
}

#[test]
fn is_pressed_reads_the_newly_pressed_set() {
    let mut k = KeyInput::default();
    k.pressed.escape = true;
    assert!(k.is_pressed(Key::Escape));
    assert!(!k.is_pressed(Key::Fire));
    assert!(!k.is_down(Key::Escape));
}
