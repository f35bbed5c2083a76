use pointer_chasing::config::{check_config, whole_rounds, ConfigError};

#[test]
fn whole_sizes_with_enough_slots_pass() {
    assert_eq!(check_config(1 << 20, 8, 1), Ok(131072));
    assert_eq!(check_config(8192, 64, 16), Ok(128));
    assert_eq!(check_config(64, 64, 1), Ok(1));
    assert_eq!(check_config(640, 64, 10), Ok(10));
}

#[test]
fn ragged_size_is_refused() {
    assert_eq!(check_config(100, 64, 1), Err(ConfigError::Ragged));
    assert_eq!(check_config(63, 64, 0), Err(ConfigError::Ragged));
}

#[test]
fn empty_size_is_refused() {
    assert_eq!(check_config(0, 64, 1), Err(ConfigError::NoSlots));
    assert_eq!(check_config(0, 64, 0), Err(ConfigError::NoSlots));
}

#[test]
fn no_cursor_is_refused() {
    assert_eq!(check_config(128, 64, 0), Err(ConfigError::NoCursors));
}

#[test]
fn more_cursors_than_slots_are_refused() {
    assert_eq!(check_config(128, 64, 3), Err(ConfigError::TooManyCursors));
    assert_eq!(check_config(128, 64, 2), Ok(2));
}

#[test]
fn steps_are_rounded_down_to_whole_rounds() {
    assert_eq!(whole_rounds(10_000_000, 16), 10_000_000);
    assert_eq!(whole_rounds(10_000_000, 11), 9_999_990);
    assert_eq!(whole_rounds(10_000_000, 12), 9_999_996);
    assert_eq!(whole_rounds(10_000_000, 13), 9_999_990);
    assert_eq!(whole_rounds(5, 8), 0);
    assert_eq!(whole_rounds(0, 1), 0);
    assert_eq!(whole_rounds(7, 1), 7);
}
