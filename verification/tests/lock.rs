//! What opens the screen.
use yantrik_ui::lock::{check_pin, check_restored, pin_path, Check, Stored, DEFAULT_PIN, PIN_FILE_MODE};

#[test]
fn a_missing_pin_file_does_not_unlock_the_screen() {
    // Nothing created yet: this is the state `rm ~/.yantrik/lock_pin` produces.
    assert_eq!(check_pin(&Stored::Missing, "whatever"), Check::Restore);
    let restored = Stored::Held(DEFAULT_PIN.to_string());
    assert!(
        !check_restored(&restored, "whatever"),
        "deleting the PIN file must not be a way past the lock screen"
    );
    // And it put the default back, so the person is not locked out either.
    assert_eq!(check_pin(&restored, "0000"), Check::Answer(true));
    assert!(!check_restored(&Stored::Missing, "0000"));
}

#[test]
fn the_pin_file_is_not_readable_by_anyone_else() {
    assert_eq!(PIN_FILE_MODE, 0o600);
}

#[test]
fn the_right_pin_unlocks_and_the_wrong_one_does_not() {
    let stored = Stored::Held("4821\n".to_string());
    assert_eq!(check_pin(&stored, "4821"), Check::Answer(true));
    assert_eq!(check_pin(&stored, " 4821 "), Check::Answer(true), "a trailing space is a typo, not a different PIN");
    assert_eq!(check_pin(&stored, "4822"), Check::Answer(false));
    assert_eq!(check_pin(&stored, ""), Check::Answer(false));
}

#[test]
fn a_pin_that_cannot_be_read_opens_nothing() {
    for typed in ["", "0000", "4821"] {
        assert_eq!(check_pin(&Stored::Unreadable, typed), Check::Answer(false));
        assert!(!check_restored(&Stored::Unreadable, typed));
    }
}

#[test]
fn the_pin_is_kept_under_the_home() {
    assert_eq!(pin_path(Some("/home/me")), "/home/me/.yantrik/lock_pin");
    assert_eq!(pin_path(Some("/home/me/")), "/home/me/.yantrik/lock_pin");
    assert_eq!(pin_path(None), "/root/.yantrik/lock_pin");
}
