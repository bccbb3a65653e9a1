//! Inputs with a title and a check of what they hold.

use vstd::prelude::*;

use crate::input::{Dial, Line, NumericalInput, StringInput};
use crate::utility::Number;

verus! {

/// A line of text with a title, and a check that says what is wrong with the
/// text, if anything is.
pub struct TextBox<V> {
    input: StringInput,
    title: String,
    validator: Option<V>,
}

impl<V: Fn(&str) -> Option<String>> TextBox<V> {
    /// The line of text.
    pub closed spec fn line(&self) -> Line {
        self.input@
    }

    /// The title.
    pub closed spec fn heading(&self) -> Seq<char> {
        self.title@
    }

    /// The check, if there is one.
    pub closed spec fn check(&self) -> Option<V> {
        self.validator
    }

    /// An empty box without a check.
    pub fn new(title: String) -> (text_box: Self)
        ensures
            text_box.line() == (Line { value: Seq::empty(), caret: 0, hidden: false }),
            text_box.heading() == title@,
            text_box.check() is None,
    {
        TextBox { input: StringInput::default(), title, validator: None }
    }

    /// The box with this check.
    pub fn validator(self, validator: V) -> (text_box: Self)
        ensures
            text_box.line() == self.line(),
            text_box.heading() == self.heading(),
            text_box.check() == Some(validator),
    {
        TextBox { input: self.input, title: self.title, validator: Some(validator) }
    }

    /// The box with this text in it, the caret at the end of the text.
    pub fn placeholder(self, value: String) -> (text_box: Self)
        ensures
            text_box.line() == (Line { value: value@, caret: value@.len(), ..self.line() }),
            text_box.heading() == self.heading(),
            text_box.check() == self.check(),
    {
        let mut input = self.input;
        input.set_value(value);
        TextBox { input, title: self.title, validator: self.validator }
    }

    /// The box with its text kept from view, or not.
    pub fn conceal(self, value: bool) -> (text_box: Self)
        ensures
            text_box.line() == (Line { hidden: value, ..self.line() }),
            text_box.heading() == self.heading(),
            text_box.check() == self.check(),
    {
        TextBox { input: self.input.conceal(value), title: self.title, validator: self.validator }
    }

    /// The text.
    pub fn value(&self) -> (value: String)
        ensures
            value@ == self.line().value,
    {
        self.input.value()
    }

    /// The title.
    pub fn title(&self) -> (title: &str)
        ensures
            title@ == self.heading(),
    {
        self.title.as_str()
    }

    /// The line of text.
    pub fn input(&self) -> (input: &StringInput)
        ensures
            input@ == self.line(),
    {
        &self.input
    }

    /// What the check says of the text: nothing, where there is no check.
    pub fn validate(&self) -> (complaint: Option<String>)
        requires
            self.check() matches Some(check) ==> forall|text: &str|
                text@ == self.line().value ==> call_requires(check, (text,)),
        ensures
            match self.check() {
                Some(check) => exists|text: &str|
                    text@ == self.line().value && call_ensures(check, (text,), complaint),
                None => complaint is None,
            },
    {
        match &self.validator {
            Some(check) => {
                let value = self.input.value();
                check(value.as_str())
            },
            None => None,
        }
    }
}

/// A number with a title, and a check that says what is wrong with the
/// number, if anything is.
pub struct Slider<T: Number, V> {
    input: NumericalInput<T>,
    title: String,
    validator: Option<V>,
}

impl<T: Number, V: Fn(T) -> Option<String>> Slider<T, V> {
    /// The number under edit.
    pub closed spec fn dial(&self) -> Dial<T> {
        self.input@
    }

    /// The title.
    pub closed spec fn heading(&self) -> Seq<char> {
        self.title@
    }

    /// The check, if there is one.
    pub closed spec fn check(&self) -> Option<V> {
        self.validator
    }

    /// A slider without a check, which holds its default.
    pub fn new(title: String, default: T, min: T, max: T, step: T) -> (slider: Self)
        requires
            min.as_int() <= default.as_int() <= max.as_int(),
        ensures
            slider.dial() == (Dial { default, value: default, min, max, step }),
            slider.heading() == title@,
            slider.check() is None,
    {
        Slider { input: NumericalInput::new(default, min, max, step), title, validator: None }
    }

    /// The slider with this check.
    pub fn validator(self, validator: V) -> (slider: Self)
        ensures
            slider.dial() == self.dial(),
            slider.heading() == self.heading(),
            slider.check() == Some(validator),
    {
        Slider { input: self.input, title: self.title, validator: Some(validator) }
    }

    /// The number.
    pub fn value(&self) -> (value: T)
        ensures
            value == self.dial().value,
    {
        self.input.value()
    }

    /// The title.
    pub fn title(&self) -> (title: &str)
        ensures
            title@ == self.heading(),
    {
        self.title.as_str()
    }

    /// The number under edit.
    pub fn input(&self) -> (input: &NumericalInput<T>)
        ensures
            input@ == self.dial(),
    {
        &self.input
    }

    /// What the check says of the number: nothing, where there is no check.
    pub fn validate(&self) -> (complaint: Option<String>)
        requires
            self.check() matches Some(check) ==> call_requires(check, (self.dial().value,)),
        ensures
            match self.check() {
                Some(check) => call_ensures(check, (self.dial().value,), complaint),
                None => complaint is None,
            },
    {
        match &self.validator {
            Some(check) => check(self.input.value()),
            None => None,
        }
    }
}

} // verus!
