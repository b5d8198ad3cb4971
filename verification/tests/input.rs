use emul8tor::input::{InputEvent, InputManager};

#[test]
fn test_is_key_pressed() {
    let mut input_manager = InputManager::new();

    // Simulate pressing the '1' key
    input_manager.update(&vec![InputEvent::KeyDown(0x1)]);

    assert!(input_manager.is_key_pressed(0x1));
    assert!(!input_manager.is_key_pressed(0x2));
}

#[test]
fn test_get_next_released_key() {
    let mut input_manager = InputManager::new();

    // Start waiting, then simulate releasing the '1' key
    input_manager.get_next_released_key();
    input_manager.update(&vec![InputEvent::KeyUp(0x1)]);

    assert_eq!(input_manager.get_next_released_key(), Some(0x1));
    assert_eq!(input_manager.get_next_released_key(), None); // Queue should be empty now
}

#[test]
fn input_test_should_quit() {
    let mut input_manager = InputManager::new();
    assert!(!input_manager.should_quit());

    input_manager.update(&vec![InputEvent::Quit]);
    assert!(input_manager.should_quit());
}

#[test]
fn test_update_key_down() {
    let mut input_manager = InputManager::new();

    // Simulate key down event
    input_manager.update(&vec![InputEvent::KeyDown(0x1)]);

    assert!(input_manager.is_key_pressed(0x1));
}

#[test]
fn test_update_key_up() {
    let mut input_manager = InputManager::new();

    input_manager.get_next_released_key();

    // Simulate key down event, then key up event
    input_manager.update(&vec![InputEvent::KeyDown(0x1)]);
    input_manager.update(&vec![InputEvent::KeyUp(0x1)]);

    assert!(!input_manager.is_key_pressed(0x1));
    assert_eq!(input_manager.get_next_released_key(), Some(0x1));
}

#[test]
fn test_input_manager_test_should_quit() {
    let mut input_manager = InputManager::new();

    // Simulate quit event
    input_manager.update(&vec![InputEvent::Quit]);

    assert!(input_manager.should_quit());
}

#[test]
fn test_release_only_queued_while_waiting() {
    // A release seen while nobody waits is not queued.
    let mut input_manager = InputManager::new();
    input_manager.update(&vec![InputEvent::KeyDown(0x7), InputEvent::KeyUp(0x7)]);
    assert_eq!(input_manager.get_next_released_key(), None);
}

#[test]
fn test_keys_outside_pad_ignored() {
    let mut input_manager = InputManager::new();
    input_manager.get_next_released_key();
    input_manager.update(&vec![InputEvent::KeyDown(20), InputEvent::KeyUp(20)]);
    for k in 0..16u8 {
        assert!(!input_manager.is_key_pressed(k));
    }
    assert_eq!(input_manager.get_next_released_key(), None);
    assert!(!input_manager.should_quit());
}
