use svalbard::result::VaultError;
use svalbard::shared::vault_folder;
use svalbard::state::{ExitSignal, Status};
use svalbard::text::{chars_of, decimal_string, same_text, string_of};
use svalbard::utility::{shift, Center, CenteredWidget, Number, WrappedString};

#[test]
fn shift_moves_within_the_places() {
    assert_eq!(shift(3, 2, 10), 5);
    assert_eq!(shift(3, -2, 10), 1);
    assert_eq!(shift(3, 0, 10), 3);
    assert_eq!(shift(3, -3, 10), 0);
    assert_eq!(shift(3, 6, 10), 9);
}

#[test]
fn shift_stops_at_the_first_and_the_last_place() {
    assert_eq!(shift(3, -4, 10), 0);
    assert_eq!(shift(3, 7, 10), 9);
    assert_eq!(shift(0, -1, 1), 0);
    assert_eq!(shift(0, 1, 1), 0);
    assert_eq!(shift(3, isize::MIN, 10), 0);
    assert_eq!(shift(3, isize::MAX, 10), 9);
    assert_eq!(shift(usize::MAX - 1, isize::MAX, usize::MAX), usize::MAX - 1);
    assert_eq!(shift(usize::MAX - 1, isize::MIN, usize::MAX), usize::MAX - 1 - (1usize << (usize::BITS - 1)));
}

#[test]
fn centered_widget_leaves_half_of_what_is_free_above() {
    let centered = CenteredWidget::new("widget", 4);
    assert_eq!(centered.height(), 4);
    assert_eq!(*centered.widget(), "widget");
    assert_eq!(centered.offset(10), 3);
    assert_eq!(centered.offset(11), 3);
    assert_eq!(centered.offset(4), 0);
    assert_eq!(centered.offset(3), 0);
    assert_eq!(centered.offset(0), 0);
    assert_eq!(centered.offset(u16::MAX), 32765);
    assert_eq!(centered.into_widget(), "widget");
}

#[test]
fn wrapped_string_is_wrapped_at_its_width() {
    let wrapped = WrappedString::new("Foo   bar baz", 8);
    assert_eq!(wrapped.lines(), &["Foo", "bar baz"]);
    assert_eq!(wrapped.height(), 2);
    let wrapped = WrappedString::new("Foo   bar baz", 10);
    assert_eq!(wrapped.lines(), &["Foo   bar", "baz"]);
    let wrapped = WrappedString::new("Press any key to close...", 80);
    assert_eq!(wrapped.lines(), &["Press any key to close..."]);
    assert_eq!(wrapped.height(), 1);
    let wrapped = WrappedString::new("one\ntwo", 80);
    assert_eq!(wrapped.lines(), &["one", "two"]);
}

#[test]
fn wrapped_string_of_no_width() {
    let wrapped = WrappedString::new("ab c", 0);
    assert_eq!(wrapped.lines().concat().replace(' ', ""), "abc");
    let wrapped = WrappedString::new("", 0);
    assert_eq!(wrapped.height(), 1);
    let wrapped = WrappedString::new("a b", u16::MAX);
    assert_eq!(wrapped.lines(), &["a b"]);
}

#[test]
fn wrapped_string_keeps_its_lines_when_styled() {
    let style = tui::style::Style::default().fg(tui::style::Color::Red);
    let wrapped = WrappedString::new("Foo   bar baz", 8);
    assert_eq!(wrapped.shown_style(), tui::style::Style::default());
    let wrapped = wrapped.style(style);
    assert_eq!(wrapped.shown_style(), style);
    assert_eq!(wrapped.lines(), &["Foo", "bar baz"]);
}

#[test]
fn wrapped_string_is_centred_on_its_height() {
    let centered = WrappedString::new("Foo   bar baz", 8).center();
    assert_eq!(centered.height(), 2);
    assert_eq!(centered.offset(10), 4);
    assert_eq!(centered.widget().lines(), &["Foo", "bar baz"]);
}

#[test]
fn numbers_are_written_in_decimal() {
    assert_eq!(0u8.digits(), "0");
    assert_eq!(255u8.digits(), "255");
    assert_eq!(65535u16.digits(), "65535");
    assert_eq!(u32::MAX.digits(), "4294967295");
    assert_eq!(u64::MAX.digits(), "18446744073709551615");
    assert_eq!(usize::MAX.digits(), usize::MAX.to_string());
    assert_eq!(i8::MIN.digits(), "-128");
    assert_eq!(i16::MIN.digits(), "-32768");
    assert_eq!((-1i32).digits(), "-1");
    assert_eq!(i32::MIN.digits(), "-2147483648");
    assert_eq!(i64::MIN.digits(), "-9223372036854775808");
    assert_eq!(i64::MAX.digits(), "9223372036854775807");
    assert_eq!(isize::MIN.digits(), isize::MIN.to_string());
    assert_eq!(1000u64.digits(), "1000");
    assert_eq!(decimal_string(true, 0), "-0");
    assert_eq!(decimal_string(false, 907), "907");
}

#[test]
fn numbers_are_added_and_subtracted_within_their_type() {
    assert_eq!(200u8.plus(55), Some(255));
    assert_eq!(200u8.plus(56), None);
    assert_eq!(5u8.minus(5), Some(0));
    assert_eq!(5u8.minus(6), None);
    assert_eq!(u64::MAX.plus(1), None);
    assert_eq!((u64::MAX - 1).plus(1), Some(u64::MAX));
    assert_eq!(100i8.plus(27), Some(127));
    assert_eq!(100i8.plus(28), None);
    assert_eq!((-100i8).plus(-28), Some(-128));
    assert_eq!((-100i8).plus(-29), None);
    assert_eq!((-100i8).minus(28), Some(-128));
    assert_eq!((-100i8).minus(29), None);
    assert_eq!(100i8.minus(-27), Some(127));
    assert_eq!(100i8.minus(-28), None);
    assert_eq!(0i8.minus(i8::MIN), None);
    assert_eq!((-1i8).minus(i8::MIN), Some(127));
    assert_eq!(i64::MIN.plus(i64::MAX), Some(-1));
    assert!(3u32.at_least(3));
    assert!(4u32.at_least(3));
    assert!(!2u32.at_least(3));
    assert!((-2i32).at_least(-3));
}

#[test]
fn text_goes_to_characters_and_back() {
    assert_eq!(chars_of("héllo"), ['h', 'é', 'l', 'l', 'o']);
    assert_eq!(chars_of(""), []);
    assert_eq!(string_of(&vec!['h', 'é', 'l', 'l', 'o']), "héllo");
    assert_eq!(string_of(&Vec::new()), "");
    assert!(same_text("abc", "abc"));
    assert!(same_text("", ""));
    assert!(!same_text("abc", "abd"));
    assert!(!same_text("abc", "ab"));
    assert!(!same_text("ab", "abc"));
}

#[test]
fn errors_say_what_went_wrong() {
    assert_eq!(
        VaultError::VaultNameConflict("test".to_string()).message(),
        "Vault name 'test' already exists. Try a different name"
    );
    assert_eq!(
        VaultError::SeedIndex(5).message(),
        "Seed index 5 out-of-bounds. This is a bug, please report to Mr. Simon."
    );
    assert_eq!(
        VaultError::SeedIndex(1234567890).message(),
        "Seed index 1234567890 out-of-bounds. This is a bug, please report to Mr. Simon."
    );
    assert_eq!(
        VaultError::Hashing.message(),
        "The hash function refused its input. No digest was made."
    );
}

#[test]
fn vaults_are_kept_beside_the_program() {
    assert_eq!(vault_folder("/opt/svalbard"), "/opt/svalbard/vaults");
    assert_eq!(vault_folder("/opt/svalbard/"), "/opt/svalbard/vaults");
    assert_eq!(vault_folder(""), "vaults");
}

#[test]
fn status_and_exit_signal_are_plain_values() {
    assert_eq!(ExitSignal, ExitSignal);
    assert_ne!(Status::Done, Status::Cancelled);
    assert_ne!(Status::Done, Status::Running);
    assert_eq!(Status::Running, Status::Running);
}
