//! Dialogs: what they hold, what they show around it, and what the keys do.

use vstd::prelude::*;

use crate::input::{Form, FormView, Key, Modifiers};
use crate::state::Status;

verus! {

/// How grave a notice is.
#[derive(Clone, Copy, PartialEq, Eq, Structural, Debug)]
pub enum NoticeLevel {
    Info,
    Warning,
    Failure,
    Fatal,
}

/// The colour of a dialog.
#[derive(Clone, Copy, PartialEq, Eq, Structural, Debug)]
pub enum Tint {
    /// The colour of the terminal.
    Plain,
    Cyan,
    Yellow,
    Red,
}

/// What a dialog holds.
#[derive(Debug)]
pub enum DialogContent {
    /// A question that is answered with yes or no.
    Confirm(String),
    /// A form to be filled in.
    Form(Form),
    /// A notice to be read.
    Notice(NoticeLevel, String),
}

/// What a dialog holds, to a contract.
pub enum DialogView {
    /// A question that is answered with yes or no.
    Confirm(Seq<char>),
    /// A form to be filled in.
    Form(FormView),
    /// A notice to be read.
    Notice(NoticeLevel, Seq<char>),
}

impl View for DialogContent {
    type V = DialogView;

    open spec fn view(&self) -> DialogView {
        match self {
            DialogContent::Confirm(question) => DialogView::Confirm(question@),
            DialogContent::Form(form) => DialogView::Form(form@),
            DialogContent::Notice(level, message) => DialogView::Notice(*level, message@),
        }
    }
}

impl DialogView {
    /// Whether the form of the dialog, if it holds one, is in bounds.
    pub open spec fn in_bounds(self) -> bool {
        self matches DialogView::Form(form) ==> form.in_bounds()
    }

    /// What the dialog says of itself after a key.
    ///
    /// * A question is finished by `y`, and cancelled by `n` and by escape.
    /// * A form is finished by enter and cancelled by escape.
    /// * A notice is finished by any key.
    pub open spec fn status_after(self, key: Key) -> Status {
        match self {
            DialogView::Confirm(_) => match key {
                Key::Char(c) => if c == 'y' || c == 'Y' {
                    Status::Done
                } else if c == 'n' || c == 'N' {
                    Status::Cancelled
                } else {
                    Status::Running
                },
                Key::Esc => Status::Cancelled,
                _ => Status::Running,
            },
            DialogView::Form(_) => match key {
                Key::Esc => Status::Cancelled,
                Key::Enter => Status::Done,
                _ => Status::Running,
            },
            DialogView::Notice(_, _) => Status::Done,
        }
    }

    /// What the dialog holds after a key: a form takes every key but enter
    /// and escape, and nothing else changes.
    pub open spec fn after_key(self, key: Key, control: bool) -> DialogView {
        match self {
            DialogView::Form(form) => if key != Key::Esc && key != Key::Enter {
                DialogView::Form(form.after_key(key, control))
            } else {
                self
            },
            _ => self,
        }
    }

    /// The title of the dialog.
    pub open spec fn title(self) -> Seq<char> {
        match self {
            DialogView::Notice(level, _) => match level {
                NoticeLevel::Info => "Info"@,
                NoticeLevel::Warning => "Warning"@,
                NoticeLevel::Failure => "Error"@,
                NoticeLevel::Fatal => "Fatal Error"@,
            },
            DialogView::Form(form) => form.title,
            DialogView::Confirm(_) => "Confirm"@,
        }
    }

    /// The colour of the dialog.
    pub open spec fn tint(self) -> Tint {
        match self {
            DialogView::Notice(level, _) => match level {
                NoticeLevel::Info => Tint::Cyan,
                NoticeLevel::Warning => Tint::Yellow,
                NoticeLevel::Failure => Tint::Red,
                NoticeLevel::Fatal => Tint::Red,
            },
            DialogView::Form(_) => Tint::Plain,
            DialogView::Confirm(_) => Tint::Yellow,
        }
    }

    /// What the dialog tells the user of its keys.
    pub open spec fn hint(self) -> Seq<char> {
        match self {
            DialogView::Notice(_, _) => "Press any key to close..."@,
            DialogView::Form(_) => "Press (enter) to submit, (esc) to cancel..."@,
            DialogView::Confirm(_) => "Press (y) to confirm, (n) or (esc) to cancel..."@,
        }
    }
}

/// A dialog.
#[derive(Debug)]
pub struct Dialog {
    content: DialogContent,
}

impl View for Dialog {
    type V = DialogView;

    closed spec fn view(&self) -> DialogView {
        self.content@
    }
}

/// A dialog that asks a question to be answered with yes or no.
pub fn confirm(msg: String) -> (dialog: Dialog)
    ensures
        dialog@ == DialogView::Confirm(msg@),
{
    Dialog { content: DialogContent::Confirm(msg) }
}

/// A dialog with a notice for the user's information.
pub fn info(msg: String) -> (dialog: Dialog)
    ensures
        dialog@ == DialogView::Notice(NoticeLevel::Info, msg@),
{
    notice(NoticeLevel::Info, msg)
}

/// A dialog with a warning.
pub fn warning(msg: String) -> (dialog: Dialog)
    ensures
        dialog@ == DialogView::Notice(NoticeLevel::Warning, msg@),
{
    notice(NoticeLevel::Warning, msg)
}

/// A dialog that says what went wrong.
pub fn error(msg: String) -> (dialog: Dialog)
    ensures
        dialog@ == DialogView::Notice(NoticeLevel::Failure, msg@),
{
    notice(NoticeLevel::Failure, msg)
}

/// A dialog that says what went wrong, where the program cannot go on.
pub fn fatal(msg: String) -> (dialog: Dialog)
    ensures
        dialog@ == DialogView::Notice(NoticeLevel::Fatal, msg@),
{
    notice(NoticeLevel::Fatal, msg)
}

/// A dialog with a form to be filled in.
pub fn form(fields: Form) -> (dialog: Dialog)
    ensures
        dialog@ == DialogView::Form(fields@),
{
    Dialog { content: DialogContent::Form(fields) }
}

/// A dialog with a notice.
pub fn notice(level: NoticeLevel, msg: String) -> (dialog: Dialog)
    ensures
        dialog@ == DialogView::Notice(level, msg@),
{
    Dialog { content: DialogContent::Notice(level, msg) }
}

impl Dialog {
    /// What the dialog holds.
    pub fn content(&self) -> (content: &DialogContent)
        ensures
            content@ == self@,
    {
        &self.content
    }

    /// What the dialog holds, given back.
    pub fn into_content(self) -> (content: DialogContent)
        ensures
            content@ == self@,
    {
        self.content
    }

    /// Handles a key, and says whether the dialog is finished, cancelled, or
    /// goes on.
    pub fn update(&mut self, key: Key, modifiers: Modifiers) -> (status: Status)
        requires
            old(self)@.in_bounds(),
        ensures
            status == old(self)@.status_after(key),
            final(self)@ == old(self)@.after_key(key, modifiers.control),
            final(self)@.in_bounds(),
    {
        match &mut self.content {
            DialogContent::Confirm(_) => match key {
                Key::Char(c) => {
                    if c == 'y' || c == 'Y' {
                        Status::Done
                    } else if c == 'n' || c == 'N' {
                        Status::Cancelled
                    } else {
                        Status::Running
                    }
                },
                Key::Esc => Status::Cancelled,
                _ => Status::Running,
            },
            DialogContent::Form(form) => match key {
                Key::Esc => Status::Cancelled,
                Key::Enter => Status::Done,
                _ => {
                    form.key_down(key, modifiers);
                    Status::Running
                },
            },
            DialogContent::Notice(_, _) => Status::Done,
        }
    }

    /// The title of the dialog.
    pub fn title(&self) -> (title: &str)
        ensures
            title@ == self@.title(),
    {
        match &self.content {
            DialogContent::Notice(level, _) => match level {
                NoticeLevel::Info => "Info",
                NoticeLevel::Warning => "Warning",
                NoticeLevel::Failure => "Error",
                NoticeLevel::Fatal => "Fatal Error",
            },
            DialogContent::Form(form) => form.title(),
            DialogContent::Confirm(_) => "Confirm",
        }
    }

    /// The colour of the dialog.
    pub fn tint(&self) -> (tint: Tint)
        ensures
            tint == self@.tint(),
    {
        match &self.content {
            DialogContent::Notice(level, _) => match level {
                NoticeLevel::Info => Tint::Cyan,
                NoticeLevel::Warning => Tint::Yellow,
                NoticeLevel::Failure => Tint::Red,
                NoticeLevel::Fatal => Tint::Red,
            },
            DialogContent::Form(_) => Tint::Plain,
            DialogContent::Confirm(_) => Tint::Yellow,
        }
    }

    /// What the dialog tells the user of its keys.
    pub fn hint(&self) -> (hint: &'static str)
        ensures
            hint@ == self@.hint(),
    {
        match &self.content {
            DialogContent::Notice(_, _) => "Press any key to close...",
            DialogContent::Form(_) => "Press (enter) to submit, (esc) to cancel...",
            DialogContent::Confirm(_) => "Press (y) to confirm, (n) or (esc) to cancel...",
        }
    }
}

} // verus!
