use svalbard::dialog::{
    confirm, error, fatal, form, info, notice, warning, Dialog, DialogContent, NoticeLevel, Tint,
};
use svalbard::input::{Form, Key, Modifiers};
use svalbard::state::Status;

const PLAIN: Modifiers = Modifiers { control: false, alt: false };

fn keys() -> Vec<Key> {
    vec![
        Key::Left,
        Key::Right,
        Key::Up,
        Key::Down,
        Key::Backspace,
        Key::Delete,
        Key::Enter,
        Key::Esc,
        Key::Char('y'),
        Key::Char('n'),
        Key::Char('x'),
        Key::Other,
    ]
}

#[test]
fn question_is_answered_with_yes_or_no() {
    for (key, status) in [
        (Key::Char('y'), Status::Done),
        (Key::Char('Y'), Status::Done),
        (Key::Char('n'), Status::Cancelled),
        (Key::Char('N'), Status::Cancelled),
        (Key::Esc, Status::Cancelled),
        (Key::Enter, Status::Running),
        (Key::Char('j'), Status::Running),
        (Key::Other, Status::Running),
        (Key::Left, Status::Running),
    ] {
        let mut dialog = confirm("Continue?".to_string());
        assert_eq!(dialog.update(key, PLAIN), status);
        assert!(matches!(dialog.content(), DialogContent::Confirm(question) if question == "Continue?"));
    }
}

#[test]
fn notice_is_closed_by_any_key() {
    for key in keys() {
        let mut dialog = info("Done.".to_string());
        assert_eq!(dialog.update(key, PLAIN), Status::Done);
    }
}

#[test]
fn form_dialog_is_submitted_or_cancelled() {
    let fields = || Form::new("Add seed".to_string()).textbox("id", "Identifier".to_string());
    let mut dialog = form(fields());
    assert_eq!(dialog.update(Key::Char('a'), PLAIN), Status::Running);
    assert_eq!(dialog.update(Key::Char('y'), PLAIN), Status::Running);
    assert_eq!(dialog.update(Key::Down, PLAIN), Status::Running);
    assert_eq!(dialog.update(Key::Enter, PLAIN), Status::Done);
    match dialog.into_content() {
        DialogContent::Form(filled) => assert_eq!(filled.get_string("id"), Some("ay".to_string())),
        _ => panic!("the dialog holds a form"),
    }
    let mut dialog = form(fields());
    assert_eq!(dialog.update(Key::Esc, PLAIN), Status::Cancelled);
}

fn shown(dialog: &Dialog) -> (String, Tint, &'static str) {
    (dialog.title().to_string(), dialog.tint(), dialog.hint())
}

#[test]
fn dialogs_show_their_title_colour_and_hint() {
    let close = "Press any key to close...";
    assert_eq!(shown(&info("m".to_string())), ("Info".to_string(), Tint::Cyan, close));
    assert_eq!(shown(&warning("m".to_string())), ("Warning".to_string(), Tint::Yellow, close));
    assert_eq!(shown(&error("m".to_string())), ("Error".to_string(), Tint::Red, close));
    assert_eq!(shown(&fatal("m".to_string())), ("Fatal Error".to_string(), Tint::Red, close));
    assert_eq!(
        shown(&confirm("m".to_string())),
        ("Confirm".to_string(), Tint::Yellow, "Press (y) to confirm, (n) or (esc) to cancel...")
    );
    assert_eq!(
        shown(&form(Form::new("Add seed".to_string()))),
        ("Add seed".to_string(), Tint::Plain, "Press (enter) to submit, (esc) to cancel...")
    );
}

#[test]
fn notices_hold_their_level_and_message() {
    for (dialog, level) in [
        (info("m".to_string()), NoticeLevel::Info),
        (warning("m".to_string()), NoticeLevel::Warning),
        (error("m".to_string()), NoticeLevel::Failure),
        (fatal("m".to_string()), NoticeLevel::Fatal),
        (notice(NoticeLevel::Warning, "m".to_string()), NoticeLevel::Warning),
    ] {
        match dialog.into_content() {
            DialogContent::Notice(held, message) => {
                assert_eq!(held, level);
                assert_eq!(message, "m");
            }
            _ => panic!("the dialog holds a notice"),
        }
    }
}
