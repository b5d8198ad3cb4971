use emul8tor::video::{DisplayManager, Resolution};

fn create_test_display_manager() -> DisplayManager {
    DisplayManager::new(Resolution::Low)
}

#[test]
fn test_get_dimensions() {
    let display_manager = create_test_display_manager();
    assert_eq!(display_manager.height(), 32);
    assert_eq!(display_manager.width(), 64);
}

#[test]
fn test_set_pixel() {
    let mut display_manager = create_test_display_manager();
    let x = 10;
    let y = 10;
    let value = 1;

    assert_eq!(display_manager.set_pixel(x, y, value), 0);
    assert_eq!(display_manager.get_pixel(x, y), value);

    // Setting the same pixel to the same value should return 1
    assert_eq!(display_manager.set_pixel(x, y, value), 1);
    assert_eq!(display_manager.get_pixel(x, y), 0);
}

#[test]
fn test_clear() {
    let mut display_manager = create_test_display_manager();
    display_manager.set_pixel(10, 10, 1);
    display_manager.clear();
    let mut all_clear = true;
    for y in 0..display_manager.height() {
        for x in 0..display_manager.width() {
            if display_manager.get_pixel(x, y) != 0 {
                all_clear = false;
            }
        }
    }
    assert!(all_clear);
}

#[test]
fn test_render() {
    let mut display_manager = create_test_display_manager();
    display_manager.set_pixel(10, 10, 1);
    display_manager.render();
    assert!(!display_manager.is_dirty());
}

#[test]
fn test_scroll_down() {
    let mut display_manager = create_test_display_manager();

    // Set the first row to all 1s
    for x in 0..display_manager.width() {
        display_manager.set_pixel(x, 0, 1);
    }

    display_manager.scroll_down(1);

    // Ensure the second row is now all 1s and the first row is all 0s
    for x in 0..display_manager.width() {
        assert_eq!(display_manager.get_pixel(x, 1), 1);
        assert_eq!(display_manager.get_pixel(x, 0), 0);
    }
}

#[test]
fn test_scroll_up() {
    let mut display_manager = create_test_display_manager();

    // Set the last row to all 1s
    let last_row = display_manager.height() - 1;
    for x in 0..display_manager.width() {
        display_manager.set_pixel(x, last_row, 1);
    }

    display_manager.scroll_up(1);

    // Ensure the second to last row is now all 1s and the last row is all 0s
    for x in 0..display_manager.width() {
        assert_eq!(display_manager.get_pixel(x, last_row - 1), 1);
        assert_eq!(display_manager.get_pixel(x, last_row), 0);
    }
}

#[test]
fn test_scroll_right() {
    let mut display_manager = create_test_display_manager();

    // Set the first column to all 1s
    for y in 0..display_manager.height() {
        display_manager.set_pixel(0, y, 1);
    }

    display_manager.scroll_right();

    // Ensure the fifth column is now all 1s and the first four columns are all 0s
    for y in 0..display_manager.height() {
        assert_eq!(display_manager.get_pixel(4, y), 1);
        for x in 0..4 {
            assert_eq!(display_manager.get_pixel(x, y), 0);
        }
    }
}

#[test]
fn test_scroll_left() {
    let mut display_manager = create_test_display_manager();

    // Set the last column to all 1s
    let last_col = display_manager.width() - 1;
    for y in 0..display_manager.height() {
        display_manager.set_pixel(last_col, y, 1);
    }

    display_manager.scroll_left();

    // Ensure the last column minus 4 is now all 1s and the last four columns are all 0s
    for y in 0..display_manager.height() {
        assert_eq!(display_manager.get_pixel(last_col - 4, y), 1);
        for x in (last_col - 3)..=last_col {
            assert_eq!(display_manager.get_pixel(x, y), 0);
        }
    }
}

#[test]
fn test_scroll_down_high_resolution() {
    // The top-row law holds for the wide grid as well.
    let mut display_manager = DisplayManager::new(Resolution::High);
    assert_eq!(display_manager.width(), 128);
    assert_eq!(display_manager.height(), 64);
    for x in 0..display_manager.width() {
        display_manager.set_pixel(x, 0, 1);
    }
    display_manager.scroll_down(1);
    for x in 0..display_manager.width() {
        assert_eq!(display_manager.get_pixel(x, 1), 1);
        assert_eq!(display_manager.get_pixel(x, 0), 0);
    }
}

#[test]
fn test_set_pixel_wraps_coordinates() {
    // set_pixel folds its coordinates into the grid.
    let mut display_manager = create_test_display_manager();
    display_manager.set_pixel(64 + 3, 32 + 5, 1);
    assert_eq!(display_manager.get_pixel(3, 5), 1);
}

#[test]
fn test_render_only_when_dirty() {
    let mut display_manager = create_test_display_manager();
    assert!(!display_manager.render());
    display_manager.set_pixel(1, 1, 1);
    assert!(display_manager.render());
    assert!(!display_manager.render());
}
