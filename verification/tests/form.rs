use svalbard::form::{Slider, TextBox};
use svalbard::input::{Key, Modifiers};

type TextCheck = fn(&str) -> Option<String>;
type NumberCheck = fn(u64) -> Option<String>;

fn not_empty(text: &str) -> Option<String> {
    if text.is_empty() {
        Some("must not be empty".to_string())
    } else {
        None
    }
}

fn even(number: u64) -> Option<String> {
    if number % 2 == 0 {
        None
    } else {
        Some(format!("{} is odd", number))
    }
}

#[test]
fn text_box_starts_empty_and_without_a_check() {
    let text_box = TextBox::<TextCheck>::new("Identifier".to_string());
    assert_eq!(text_box.title(), "Identifier");
    assert_eq!(text_box.value(), "");
    assert_eq!(text_box.validate(), None);
}

#[test]
fn text_box_holds_its_placeholder() {
    let text_box = TextBox::<TextCheck>::new("Sets".to_string()).placeholder("ULNSR".to_string());
    assert_eq!(text_box.value(), "ULNSR");
    assert_eq!(text_box.input().caret(), 5);
    assert_eq!(text_box.title(), "Sets");
}

#[test]
fn text_box_asks_its_check() {
    let text_box = TextBox::<TextCheck>::new("Identifier".to_string()).validator(not_empty);
    assert_eq!(text_box.validate(), Some("must not be empty".to_string()));
    let text_box = text_box.placeholder("GitHub".to_string());
    assert_eq!(text_box.validate(), None);
    assert_eq!(text_box.value(), "GitHub");
}

#[test]
fn text_box_can_be_hidden() {
    let text_box = TextBox::<TextCheck>::new("Key".to_string())
        .placeholder("secret".to_string())
        .conceal(true);
    assert_eq!(text_box.value(), "secret");
    assert_eq!(text_box.input().format(false)[0].text, "••••••");
    let text_box = text_box.conceal(false);
    assert_eq!(text_box.input().format(false)[0].text, "secret");
}

#[test]
fn slider_starts_at_its_default() {
    let slider = Slider::<u64, NumberCheck>::new("Length".to_string(), 32, 1, 255, 1);
    assert_eq!(slider.title(), "Length");
    assert_eq!(slider.value(), 32);
    assert_eq!(slider.validate(), None);
    assert_eq!(slider.input().value(), 32);
}

#[test]
fn slider_asks_its_check() {
    let slider = Slider::<u64, NumberCheck>::new("Length".to_string(), 31, 1, 255, 1).validator(even);
    assert_eq!(slider.validate(), Some("31 is odd".to_string()));
    let slider = Slider::<u64, NumberCheck>::new("Length".to_string(), 32, 1, 255, 1).validator(even);
    assert_eq!(slider.validate(), None);
    assert_eq!(slider.value(), 32);
}

#[test]
fn keys_and_modifiers_are_plain_values() {
    assert_eq!(Key::Char('a'), Key::Char('a'));
    assert_ne!(Key::Char('a'), Key::Char('b'));
    assert_ne!(Key::Left, Key::Right);
    assert_eq!(Modifiers { control: true, alt: false }, Modifiers { control: true, alt: false });
}
