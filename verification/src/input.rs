//! What the user types: keys, and the line of text or the number that they
//! edit.

use vstd::prelude::*;
use vstd::string::StringExecFns;
use vstd::string::StringSliceAdditionalSpecFns;
use vstd::utf8::encode_utf8;

use crate::text::{chars_of, same_text, string_of};
use crate::text::signed_decimal;
use crate::trusted::{alphanumeric, whitespace};
use crate::utility::{shift, shifted, Number};

verus! {

/// A key, as far as this library tells keys apart.
#[derive(Clone, Copy, PartialEq, Eq, Structural, Debug)]
pub enum Key {
    Left,
    Right,
    Up,
    Down,
    Backspace,
    Delete,
    Enter,
    Esc,
    /// A key that stands for a character.
    Char(char),
    /// Any other key.
    Other,
}

/// The keys that are held down with another key.
#[derive(Clone, Copy, PartialEq, Eq, Structural, Debug)]
pub struct Modifiers {
    pub control: bool,
    pub alt: bool,
}

/// A piece of text that is shown in one style.
#[derive(Debug, PartialEq, Eq)]
pub struct Span {
    /// The text.
    pub text: String,
    /// Whether the text is shown in reverse video: it is where the caret is.
    pub reversed: bool,
}

/// What a line of text under edit is, to a contract.
pub struct Line {
    /// The text.
    pub value: Seq<char>,
    /// The number of characters before the caret.
    pub caret: nat,
    /// Whether the text is kept from view, as a password is.
    pub hidden: bool,
}

/// The character that is shown for each character of a hidden text.
pub const MASK: char = '\u{2022}';

/// Whether the character is neither white space nor a letter or number.
pub open spec fn is_symbol(c: char) -> bool {
    !whitespace(c) && !alphanumeric(c)
}

/// Whether a word or a run of symbols begins at `i`.
pub open spec fn begins_at(value: Seq<char>, i: int) -> bool {
    ||| is_symbol(value[i]) && !is_symbol(value[i - 1])
    ||| alphanumeric(value[i]) && !alphanumeric(value[i - 1])
}

/// Where the caret lands that jumps to the left from `from`: at the nearest
/// place before it where a word or a run of symbols begins, or at the start.
pub open spec fn jump_left(value: Seq<char>, from: int) -> int
    decreases from,
{
    if from <= 1 {
        0
    } else if begins_at(value, from - 1) {
        from - 1
    } else {
        jump_left(value, from - 1)
    }
}

/// Where the caret lands that jumps to the right from `from`: at the nearest
/// place after it where a word or a run of symbols begins, or at the end.
pub open spec fn jump_right(value: Seq<char>, from: int) -> int
    decreases value.len() - from,
{
    if from + 1 >= value.len() {
        value.len() as int
    } else if begins_at(value, from + 1) {
        from + 1
    } else {
        jump_right(value, from + 1)
    }
}

/// The text without the characters from `from` up to `to`.
pub open spec fn without(value: Seq<char>, from: int, to: int) -> Seq<char> {
    value.subrange(0, from) + value.subrange(to, value.len() as int)
}

/// The text as it is shown: itself, or a mask for each character where it is
/// hidden.
pub open spec fn shown(line: Line) -> Seq<char> {
    if line.hidden {
        Seq::new(line.value.len(), |i: int| MASK)
    } else {
        line.value
    }
}

impl Line {
    /// Where the caret lands that jumps to the left, or to the right. In a
    /// hidden text it jumps to the start or the end.
    pub open spec fn jump_target(self, left: bool) -> int {
        if left {
            if self.caret == 0 || self.hidden {
                0
            } else {
                jump_left(self.value, self.caret as int)
            }
        } else {
            if self.caret == self.value.len() || self.hidden {
                self.value.len() as int
            } else {
                jump_right(self.value, self.caret as int)
            }
        }
    }

    /// The line after a key.
    pub open spec fn after_key(self, key: Key, control: bool) -> Line {
        match key {
            Key::Left => Line {
                caret: if control {
                    self.jump_target(true) as nat
                } else if self.caret > 0 {
                    (self.caret - 1) as nat
                } else {
                    0
                },
                ..self
            },
            Key::Right => Line {
                caret: if control {
                    self.jump_target(false) as nat
                } else if self.caret < self.value.len() {
                    self.caret + 1
                } else {
                    self.value.len()
                },
                ..self
            },
            Key::Backspace => if self.caret == 0 {
                self
            } else if control {
                Line {
                    value: without(self.value, self.jump_target(true), self.caret as int),
                    caret: self.jump_target(true) as nat,
                    ..self
                }
            } else {
                Line {
                    value: self.value.remove(self.caret - 1),
                    caret: (self.caret - 1) as nat,
                    ..self
                }
            },
            Key::Delete => if self.caret >= self.value.len() {
                self
            } else if control {
                Line {
                    value: without(self.value, self.caret as int, self.jump_target(false)),
                    ..self
                }
            } else {
                Line { value: self.value.remove(self.caret as int), ..self }
            },
            Key::Char(c) => Line {
                value: self.value.insert(self.caret as int, c),
                caret: self.caret + 1,
                ..self
            },
            _ => self,
        }
    }

    /// Whether a key changes the text.
    pub open spec fn changed_by(self, key: Key) -> bool {
        match key {
            Key::Backspace => self.caret > 0,
            Key::Delete => self.caret < self.value.len(),
            Key::Char(_) => true,
            _ => false,
        }
    }

    /// How the line is shown. Without a caret it is one span. With a caret it
    /// is three: what stands before the caret, the character under the caret in
    /// reverse video, and the rest. A space is added to the text for the caret
    /// to stand on at the end.
    pub open spec fn spans(self, with_caret: bool) -> Seq<(Seq<char>, bool)> {
        if with_caret {
            let content = shown(self).push(' ');
            seq![
                (content.subrange(0, self.caret as int), false),
                (content.subrange(self.caret as int, self.caret as int + 1), true),
                (content.subrange(self.caret as int + 1, content.len() as int), false),
            ]
        } else {
            seq![(shown(self), false)]
        }
    }
}

/// What each of the spans holds.
pub open spec fn span_views(spans: Seq<Span>) -> Seq<(Seq<char>, bool)> {
    Seq::new(spans.len(), |i: int| (spans[i].text@, spans[i].reversed))
}

/// Where a jump to the left lands: before where it began, and not before the
/// start.
pub proof fn lemma_jump_left(value: Seq<char>, from: int)
    requires
        1 <= from <= value.len(),
    ensures
        0 <= jump_left(value, from) < from,
        jump_left(value, from) == 0 || begins_at(value, jump_left(value, from)),
        forall|i: int| jump_left(value, from) < i < from ==> !begins_at(value, i),
    decreases from,
{
    if from > 1 && !begins_at(value, from - 1) {
        lemma_jump_left(value, from - 1);
    }
}

/// Where a jump to the right lands: after where it began, and not after the
/// end.
pub proof fn lemma_jump_right(value: Seq<char>, from: int)
    requires
        0 <= from < value.len(),
    ensures
        from < jump_right(value, from) <= value.len(),
        jump_right(value, from) == value.len() || begins_at(value, jump_right(value, from)),
        forall|i: int| from < i < jump_right(value, from) ==> !begins_at(value, i),
    decreases value.len() - from,
{
    if from + 1 < value.len() && !begins_at(value, from + 1) {
        lemma_jump_right(value, from + 1);
    }
}

/// A line of text under edit.
#[derive(Debug)]
pub struct StringInput {
    /// The text, character by character.
    value: Vec<char>,
    /// The number of characters before the caret.
    caret: usize,
    /// Whether the text is kept from view, as a password is.
    hidden: bool,
}

impl View for StringInput {
    type V = Line;

    closed spec fn view(&self) -> Line {
        Line { value: self.value@, caret: self.caret as nat, hidden: self.hidden }
    }
}

impl Default for StringInput {
    fn default() -> (input: StringInput)
        ensures
            input@ == (Line { value: Seq::empty(), caret: 0, hidden: false }),
    {
        StringInput { value: Vec::new(), caret: 0, hidden: false }
    }
}

impl StringInput {
    /// The caret stands in the text or at its end.
    #[verifier::type_invariant]
    closed spec fn caret_in_text(&self) -> bool {
        self.caret <= self.value@.len()
    }

    /// The number of characters before the caret. The caret stands in the text
    /// or at its end.
    pub fn caret(&self) -> (caret: usize)
        ensures
            caret == self@.caret,
            caret <= self@.value.len(),
    {
        proof {
            use_type_invariant(self);
        }
        self.caret
    }

    /// Says whether the text is kept from view.
    pub fn conceal(self, hide: bool) -> (input: StringInput)
        ensures
            input@ == (Line { hidden: hide, ..self@ }),
    {
        proof {
            use_type_invariant(&self);
        }
        StringInput { value: self.value, caret: self.caret, hidden: hide }
    }

    /// The text.
    pub fn value(&self) -> (value: String)
        ensures
            value@ == self@.value,
    {
        string_of(&self.value)
    }

    /// Replaces the text, and puts the caret at its end.
    pub fn set_value(&mut self, value: String)
        ensures
            final(self)@ == (Line { value: value@, caret: value@.len(), ..old(self)@ }),
    {
        let chars = chars_of(value.as_str());
        let caret = chars.len();
        let hidden = self.hidden;
        *self = StringInput { value: chars, caret, hidden };
    }

    /// Where the caret lands that jumps to the left, or to the right: at the
    /// nearest place where a word or a run of symbols begins, or at the start or
    /// the end of the text. In a hidden text it jumps to the start or the end.
    pub fn jump_point(&self, left: bool) -> (target: usize)
        ensures
            target == self@.jump_target(left),
            target <= self@.value.len(),
            left ==> target <= self@.caret,
            !left ==> target >= self@.caret,
    {
        proof {
            use_type_invariant(self);
        }
        let len = self.value.len();
        if left {
            if self.caret == 0 || self.hidden {
                return 0;
            }
            proof {
                lemma_jump_left(self.value@, self.caret as int);
            }
            let mut i: usize = self.caret - 1;
            while i > 0 && !self.begins_at(i)
                invariant
                    i < self.caret <= self.value@.len(),
                    jump_left(self.value@, self.caret as int) == jump_left(self.value@, i + 1),
                decreases i,
            {
                i -= 1;
            }
            i
        } else {
            if self.caret == len || self.hidden {
                return len;
            }
            proof {
                lemma_jump_right(self.value@, self.caret as int);
            }
            let mut i: usize = self.caret + 1;
            while i < len && !self.begins_at(i)
                invariant
                    len == self.value@.len(),
                    self.caret < i <= len,
                    jump_right(self.value@, self.caret as int) == jump_right(self.value@, i - 1),
                decreases len - i,
            {
                i += 1;
            }
            i
        }
    }

    /// Whether a word or a run of symbols begins at `i`.
    fn begins_at(&self, i: usize) -> (r: bool)
        requires
            1 <= i < self.value@.len(),
        ensures
            r == begins_at(self.value@, i as int),
    {
        let current = self.value[i];
        let before = self.value[i - 1];
        let current_symbol = !current.is_whitespace() && !current.is_alphanumeric();
        let before_symbol = !before.is_whitespace() && !before.is_alphanumeric();
        (current_symbol && !before_symbol) || (current.is_alphanumeric()
            && !before.is_alphanumeric())
    }

    /// Takes the text out, and leaves an empty line with the caret at its
    /// start.
    fn take_value(&mut self) -> (value: Vec<char>)
        ensures
            value@ == old(self)@.value,
            final(self)@ == (Line { value: Seq::empty(), caret: 0, ..old(self)@ }),
    {
        let mut value: Vec<char> = Vec::new();
        self.caret = 0;
        core::mem::swap(&mut value, &mut self.value);
        value
    }

    /// Takes the characters from `from` up to `to` out of the text.
    fn cut(value: &mut Vec<char>, from: usize, to: usize)
        requires
            from <= to <= old(value)@.len(),
        ensures
            final(value)@ == without(old(value)@, from as int, to as int),
    {
        let ghost before = value@;
        let mut left: usize = to - from;
        while left > 0
            invariant
                left <= to - from,
                to <= before.len(),
                value@ == without(before, from as int, to - left),
            decreases left,
        {
            value.remove(from);
            left -= 1;
            assert(value@ =~= without(before, from as int, to - left));
        }
        assert(value@ =~= without(before, from as int, to as int));
    }

    /// Handles a key, and says whether the text has changed.
    ///
    /// * Left and right move the caret by one character; with control, to
    ///   where [`StringInput::jump_point`] says.
    /// * Backspace takes out the character before the caret; with control,
    ///   all from where a jump to the left lands up to the caret.
    /// * Delete takes out the character under the caret; with control, all
    ///   from the caret up to where a jump to the right lands.
    /// * A character is put in at the caret, and the caret moves behind it.
    /// * Every other key is ignored.
    pub fn key_down(&mut self, key: Key, modifiers: Modifiers) -> (changed: bool)
        ensures
            final(self)@ == old(self)@.after_key(key, modifiers.control),
            changed == old(self)@.changed_by(key),
    {
        proof {
            use_type_invariant(&*self);
        }
        let control = modifiers.control;
        let caret = self.caret;
        let len = self.value.len();
        match key {
            Key::Left => {
                let target = if control {
                    self.jump_point(true)
                } else if caret > 0 {
                    caret - 1
                } else {
                    0
                };
                self.caret = target;
                false
            },
            Key::Right => {
                let target = if control {
                    self.jump_point(false)
                } else if caret < len {
                    caret + 1
                } else {
                    len
                };
                self.caret = target;
                false
            },
            Key::Backspace => {
                if caret == 0 {
                    false
                } else {
                    let end = if control {
                        self.jump_point(true)
                    } else {
                        caret - 1
                    };
                    let mut value = self.take_value();
                    let ghost before = value@;
                    StringInput::cut(&mut value, end, caret);
                    assert(!control ==> value@ =~= before.remove(caret - 1));
                    self.value = value;
                    self.caret = end;
                    true
                }
            },
            Key::Delete => {
                if caret >= len {
                    false
                } else {
                    let end = if control {
                        self.jump_point(false)
                    } else {
                        caret + 1
                    };
                    let mut value = self.take_value();
                    let ghost before = value@;
                    StringInput::cut(&mut value, caret, end);
                    assert(!control ==> value@ =~= before.remove(caret as int));
                    self.value = value;
                    self.caret = caret;
                    true
                }
            },
            Key::Char(c) => {
                let mut value = self.take_value();
                value.insert(caret, c);
                let grown = value.len();
                self.value = value;
                self.caret = caret + 1;
                true
            },
            _ => false,
        }
    }

    /// The text as it is shown: itself, or a mask for each character where it
    /// is hidden.
    fn content(&self) -> (content: Vec<char>)
        ensures
            content@ == shown(self@),
    {
        let mut content: Vec<char> = Vec::new();
        let mut i: usize = 0;
        while i < self.value.len()
            invariant
                i <= self.value@.len(),
                content@ == shown(self@).take(i as int),
            decreases self.value@.len() - i,
        {
            content.push(if self.hidden { MASK } else { self.value[i] });
            i += 1;
            assert(content@ =~= shown(self@).take(i as int));
        }
        assert(shown(self@).take(self.value@.len() as int) =~= shown(self@));
        content
    }

    /// The characters from `from` up to `to`, as a string.
    fn piece(content: &Vec<char>, from: usize, to: usize) -> (text: String)
        requires
            from <= to <= content@.len(),
        ensures
            text@ == content@.subrange(from as int, to as int),
    {
        let mut text = String::new();
        let mut i: usize = from;
        while i < to
            invariant
                from <= i <= to <= content@.len(),
                text@ == content@.subrange(from as int, i as int),
            decreases to - i,
        {
            text.push(content[i]);
            i += 1;
            assert(text@ =~= content@.subrange(from as int, i as int));
        }
        text
    }

    /// How the line is shown: in one span, or, with a caret, in three, of
    /// which the second is the character under the caret.
    pub fn format(&self, with_caret: bool) -> (spans: Vec<Span>)
        ensures
            span_views(spans@) == self@.spans(with_caret),
    {
        proof {
            use_type_invariant(self);
        }
        let mut content = self.content();
        let mut spans: Vec<Span> = Vec::new();
        if with_caret {
            content.push(' ');
            let len = content.len();
            spans.push(Span { text: StringInput::piece(&content, 0, self.caret), reversed: false });
            spans.push(
                Span {
                    text: StringInput::piece(&content, self.caret, self.caret + 1),
                    reversed: true,
                },
            );
            spans.push(
                Span { text: StringInput::piece(&content, self.caret + 1, len), reversed: false },
            );
        } else {
            spans.push(Span { text: string_of(&content), reversed: false });
        }
        assert(span_views(spans@) =~= self@.spans(with_caret));
        spans
    }
}

/// What a number under edit is, to a contract.
pub struct Dial<T> {
    /// The number that the input starts with, and that control with an arrow
    /// goes back to.
    pub default: T,
    /// The number.
    pub value: T,
    /// The least number that the arrows lead to.
    pub min: T,
    /// The greatest number that the arrows lead to.
    pub max: T,
    /// How far one arrow leads.
    pub step: T,
}

impl<T: Number> Dial<T> {
    /// Whether the number lies between the least and the greatest.
    pub open spec fn in_range(self) -> bool {
        self.min.as_int() <= self.value.as_int() <= self.max.as_int()
    }

    /// One step down: the number less the step, where that is a number of the
    /// type and not below the least; else the least.
    pub open spec fn stepped_down(self) -> int {
        let lowered = self.value.as_int() - self.step.as_int();
        if T::fits(lowered) && lowered >= self.min.as_int() {
            lowered
        } else {
            self.min.as_int()
        }
    }

    /// One step up: the number and the step, where that is a number of the
    /// type and not above the greatest; else the greatest.
    pub open spec fn stepped_up(self) -> int {
        let raised = self.value.as_int() + self.step.as_int();
        if T::fits(raised) && raised <= self.max.as_int() {
            raised
        } else {
            self.max.as_int()
        }
    }

    /// The number after a key.
    ///
    /// * Left leads one step down, right one step up.
    /// * Control and left lead to the default, or from the default and from
    ///   below it to the least. Control and right lead to the default, or from
    ///   the default and from above it to the greatest.
    /// * Every other key leaves the number as it is.
    pub open spec fn value_after(self, key: Key, control: bool) -> int {
        match key {
            Key::Left => if control {
                if self.value.as_int() <= self.default.as_int() {
                    self.min.as_int()
                } else {
                    self.default.as_int()
                }
            } else {
                self.stepped_down()
            },
            Key::Right => if control {
                if self.value.as_int() >= self.default.as_int() {
                    self.max.as_int()
                } else {
                    self.default.as_int()
                }
            } else {
                self.stepped_up()
            },
            _ => self.value.as_int(),
        }
    }
}

/// A number under edit.
#[derive(Debug)]
pub struct NumericalInput<T: Number> {
    default: T,
    value: T,
    min: T,
    max: T,
    step: T,
}

impl<T: Number> View for NumericalInput<T> {
    type V = Dial<T>;

    closed spec fn view(&self) -> Dial<T> {
        Dial {
            default: self.default,
            value: self.value,
            min: self.min,
            max: self.max,
            step: self.step,
        }
    }
}

impl<T: Number> NumericalInput<T> {
    /// The default lies between the least and the greatest.
    #[verifier::type_invariant]
    closed spec fn default_in_range(&self) -> bool {
        self.min.as_int() <= self.default.as_int() <= self.max.as_int()
    }

    /// An input that holds its default.
    pub fn new(default: T, min: T, max: T, step: T) -> (input: NumericalInput<T>)
        requires
            min.as_int() <= default.as_int() <= max.as_int(),
        ensures
            input@ == (Dial { default, value: default, min, max, step }),
    {
        NumericalInput { default, value: default, min, max, step }
    }

    /// Replaces the number.
    pub fn set_value(&mut self, value: T)
        requires
            old(self)@.min.as_int() <= value.as_int() <= old(self)@.max.as_int(),
        ensures
            final(self)@ == (Dial { value, ..old(self)@ }),
    {
        proof {
            use_type_invariant(&*self);
        }
        self.value = value;
    }

    /// The number.
    pub fn value(&self) -> (value: T)
        ensures
            value == self@.value,
    {
        self.value
    }

    /// Handles a key, and says whether the number has changed. The number
    /// after the key is what [`Dial::value_after`] says. It stays between
    /// the least and the greatest if it was there and the step is not
    /// negative.
    pub fn key_down(&mut self, key: Key, modifiers: Modifiers) -> (changed: bool)
        ensures
            final(self)@.value.as_int() == old(self)@.value_after(key, modifiers.control),
            final(self)@.default == old(self)@.default,
            final(self)@.min == old(self)@.min,
            final(self)@.max == old(self)@.max,
            final(self)@.step == old(self)@.step,
            changed == (final(self)@.value != old(self)@.value),
            old(self)@.in_range() && old(self)@.step.as_int() >= 0 ==> final(self)@.in_range(),
            final(self)@.min.as_int() <= final(self)@.default.as_int() <= final(self)@.max.as_int(),
    {
        proof {
            use_type_invariant(&*self);
        }
        let before = self.value;
        match key {
            Key::Left => {
                if modifiers.control {
                    self.value = if self.default.at_least(self.value) {
                        self.min
                    } else {
                        self.default
                    };
                } else {
                    self.value = match self.value.minus(self.step) {
                        Some(lowered) => if lowered.at_least(self.min) {
                            lowered
                        } else {
                            self.min
                        },
                        None => self.min,
                    };
                }
            },
            Key::Right => {
                if modifiers.control {
                    self.value = if self.value.at_least(self.default) {
                        self.max
                    } else {
                        self.default
                    };
                } else {
                    self.value = match self.value.plus(self.step) {
                        Some(raised) => if self.max.at_least(raised) {
                            raised
                        } else {
                            self.max
                        },
                        None => self.max,
                    };
                }
            },
            _ => {},
        }
        proof {
            T::lemma_number(self.value, before);
        }
        !(self.value.at_least(before) && before.at_least(self.value))
    }

    /// How the number is shown: in one span, in decimal digits between `<`
    /// and `>`.
    pub fn format(&self, _selected: bool) -> (spans: Vec<Span>)
        ensures
            span_views(spans@) == seq![
                (seq!['<'] + signed_decimal(self@.value.as_int()) + seq!['>'], false),
            ],
    {
        let mut text = String::new();
        text.push('<');
        let digits = self.value.digits();
        text.append(digits.as_str());
        text.push('>');
        assert(text@ =~= seq!['<'] + signed_decimal(self@.value.as_int()) + seq!['>']);
        let mut spans: Vec<Span> = Vec::new();
        spans.push(Span { text, reversed: false });
        assert(span_views(spans@) =~= seq![
            (seq!['<'] + signed_decimal(self@.value.as_int()) + seq!['>'], false),
        ]);
        spans
    }
}

/// What a field of a form holds.
#[derive(Debug)]
pub enum InputType {
    /// A line of text.
    Text(StringInput),
    /// A number.
    Number(NumericalInput<u64>),
}

/// What a field of a form holds, to a contract.
pub enum Entry {
    /// A line of text.
    Text(Line),
    /// A number.
    Number(Dial<u64>),
}

impl Entry {
    /// What the field holds after a key.
    pub open spec fn after_key(self, key: Key, control: bool) -> Entry {
        match self {
            Entry::Text(line) => Entry::Text(line.after_key(key, control)),
            Entry::Number(dial) => Entry::Number(
                Dial { value: dial.value_after(key, control) as u64, ..dial },
            ),
        }
    }
}

impl View for InputType {
    type V = Entry;

    open spec fn view(&self) -> Entry {
        match self {
            InputType::Text(input) => Entry::Text(input@),
            InputType::Number(input) => Entry::Number(input@),
        }
    }
}

/// What a field of a form is, to a contract.
pub struct FieldView {
    /// The name under which what the field holds is asked for.
    pub key: Seq<char>,
    /// The title that is shown before the field.
    pub title: Seq<char>,
    /// What the field holds.
    pub entry: Entry,
}

/// A field of a form.
#[derive(Debug)]
pub struct Field {
    key: &'static str,
    title: String,
    input_type: InputType,
}

impl View for Field {
    type V = FieldView;

    closed spec fn view(&self) -> FieldView {
        FieldView { key: self.key@, title: self.title@, entry: self.input_type@ }
    }
}

impl Field {
    /// The name under which what the field holds is asked for.
    pub fn key(&self) -> (key: &'static str)
        ensures
            key@ == self@.key,
    {
        self.key
    }

    /// The title that is shown before the field.
    pub fn title(&self) -> (title: &str)
        ensures
            title@ == self@.title,
    {
        self.title.as_str()
    }

    /// What the field holds.
    pub fn input(&self) -> (input: &InputType)
        ensures
            input@ == self@.entry,
    {
        &self.input_type
    }

    /// How what the field holds is shown.
    pub fn format_input(&self, as_selected: bool) -> (spans: Vec<Span>)
        ensures
            span_views(spans@) == entry_spans(self@.entry, as_selected),
    {
        match &self.input_type {
            InputType::Text(input) => input.format(as_selected),
            InputType::Number(input) => input.format(as_selected),
        }
    }

    /// Hands a key to what the field holds.
    pub fn key_down(&mut self, key: Key, modifiers: Modifiers)
        ensures
            final(self)@ == (FieldView {
                entry: old(self)@.entry.after_key(key, modifiers.control),
                ..old(self)@
            }),
    {
        match &mut self.input_type {
            InputType::Text(input) => {
                input.key_down(key, modifiers);
            },
            InputType::Number(input) => {
                let ghost before = input@;
                input.key_down(key, modifiers);
                proof {
                    u64::lemma_number(input@.value, before.value_after(key, modifiers.control) as u64);
                    u64::lemma_number(before.min, before.max);
                    u64::lemma_number(before.default, before.value);
                    assert(input@ == (Dial {
                        value: before.value_after(key, modifiers.control) as u64,
                        ..before
                    }));
                }
            },
        }
    }
}

/// What each of the fields is.
pub open spec fn field_views(fields: Seq<Field>) -> Seq<FieldView> {
    Seq::new(fields.len(), |i: int| fields[i]@)
}

/// The field that is found under a name: of several with the name, the last.
pub open spec fn found(fields: Seq<FieldView>, key: Seq<char>) -> Option<int>
    decreases fields.len(),
{
    if fields.len() == 0 {
        None
    } else if fields.last().key == key {
        Some(fields.len() - 1)
    } else {
        found(fields.drop_last(), key)
    }
}

/// How what a field holds is shown.
pub open spec fn entry_spans(entry: Entry, selected: bool) -> Seq<(Seq<char>, bool)> {
    match entry {
        Entry::Text(line) => line.spans(selected),
        Entry::Number(dial) => seq![
            (seq!['<'] + signed_decimal(dial.value as int) + seq!['>'], false),
        ],
    }
}

/// The number of bytes of a title.
pub open spec fn title_width(title: Seq<char>) -> nat {
    encode_utf8(title).len()
}

/// The number of bytes of the longest title of the fields.
pub open spec fn widest_title(fields: Seq<FieldView>) -> nat
    decreases fields.len(),
{
    if fields.len() == 0 {
        0
    } else if title_width(fields.last().title) >= widest_title(fields.drop_last()) {
        title_width(fields.last().title)
    } else {
        widest_title(fields.drop_last())
    }
}

/// What stands before a field: its title, after as many spaces as it has
/// bytes fewer than `width`, and before a colon and a space.
pub open spec fn label(title: Seq<char>, width: nat) -> Seq<char> {
    Seq::new((width - title_width(title)) as nat, |i: int| ' ') + title + seq![':', ' ']
}

/// No title is longer than the longest.
pub proof fn lemma_widest_title(fields: Seq<FieldView>, i: int)
    requires
        0 <= i < fields.len(),
    ensures
        title_width(fields[i].title) <= widest_title(fields),
    decreases fields.len(),
{
    if i < fields.len() - 1 {
        lemma_widest_title(fields.drop_last(), i);
    }
}

/// What a form is, to a contract.
pub struct FormView {
    /// The title of the form.
    pub title: Seq<char>,
    /// The fields, from top to bottom.
    pub fields: Seq<FieldView>,
    /// The field that the keys go to.
    pub selected: Option<usize>,
}

impl FormView {
    /// Whether the selected field is a field of the form, and a field is
    /// selected if the form has one. It is so when the form is made, and stays
    /// so.
    pub open spec fn in_bounds(self) -> bool {
        &&& self.selected matches Some(i) ==> i < self.fields.len()
        &&& self.fields.len() > 0 ==> self.selected is Some
    }

    /// The form with one more field after the others. The first field of a
    /// form is selected when it is added.
    pub open spec fn with(self, field: FieldView) -> FormView {
        FormView {
            fields: self.fields.push(field),
            selected: if self.selected is None {
                Some(0usize)
            } else {
                self.selected
            },
            ..self
        }
    }

    /// The form after the selection has moved by `delta` fields, as far as
    /// the form goes.
    pub open spec fn after_move(self, delta: int) -> FormView {
        match self.selected {
            Some(i) => FormView {
                selected: Some(shifted(i as int, delta, self.fields.len() as int) as usize),
                ..self
            },
            None => self,
        }
    }

    /// The form after a key: up and down move the selection, and every other
    /// key goes to the selected field.
    pub open spec fn after_key(self, key: Key, control: bool) -> FormView {
        match key {
            Key::Up => self.after_move(-1),
            Key::Down => self.after_move(1),
            _ => match self.selected {
                Some(i) => FormView {
                    fields: self.fields.update(
                        i as int,
                        FieldView {
                            entry: self.fields[i as int].entry.after_key(key, control),
                            ..self.fields[i as int]
                        },
                    ),
                    ..self
                },
                None => self,
            },
        }
    }

    /// How field `i` is shown: its title, all titles ending one under the
    /// other, and what it holds, with the caret if the field is selected.
    pub open spec fn line(self, i: int) -> Seq<(Seq<char>, bool)> {
        seq![(label(self.fields[i].title, widest_title(self.fields)), false)] + entry_spans(
            self.fields[i].entry,
            self.selected == Some(i as usize),
        )
    }

    /// The number that the field under this name holds, if there is such a
    /// field and it holds a number.
    pub open spec fn integer(self, key: Seq<char>) -> Option<u64> {
        match found(self.fields, key) {
            Some(i) => match self.fields[i].entry {
                Entry::Number(dial) => Some(dial.value),
                Entry::Text(_) => None,
            },
            None => None,
        }
    }

    /// The text that the field under this name holds, if there is such a
    /// field and it holds text.
    pub open spec fn string(self, key: Seq<char>) -> Option<Seq<char>> {
        match found(self.fields, key) {
            Some(i) => match self.fields[i].entry {
                Entry::Text(line) => Some(line.value),
                Entry::Number(_) => None,
            },
            None => None,
        }
    }
}

/// An empty line of text, kept from view or not.
pub open spec fn empty_line(hidden: bool) -> Line {
    Line { value: Seq::empty(), caret: 0, hidden }
}

/// A form: fields under one another, of which one is selected.
#[derive(Debug)]
pub struct Form {
    title: String,
    fields: Vec<Field>,
    selected: Option<usize>,
}

impl View for Form {
    type V = FormView;

    closed spec fn view(&self) -> FormView {
        FormView {
            title: self.title@,
            fields: field_views(self.fields@),
            selected: self.selected,
        }
    }
}

impl Form {
    /// A form without fields.
    pub fn new(title: String) -> (form: Form)
        ensures
            form@ == (FormView { title: title@, fields: Seq::empty(), selected: None }),
            form@.in_bounds(),
    {
        let form = Form { title, fields: Vec::new(), selected: None };
        assert(form@.fields =~= Seq::empty());
        form
    }

    /// The title of the form.
    pub fn title(&self) -> (title: &str)
        ensures
            title@ == self@.title,
    {
        self.title.as_str()
    }

    /// The field that the keys go to.
    pub fn selected(&self) -> (selected: Option<usize>)
        ensures
            selected == self@.selected,
    {
        self.selected
    }

    /// Handles a key: up and down move the selection, and every other key
    /// goes to the selected field.
    pub fn key_down(&mut self, key: Key, modifiers: Modifiers)
        requires
            old(self)@.in_bounds(),
        ensures
            final(self)@ == old(self)@.after_key(key, modifiers.control),
            final(self)@.in_bounds(),
    {
        match key {
            Key::Up => self.move_selected(-1),
            Key::Down => self.move_selected(1),
            _ => {
                match self.selected {
                    Some(selected) => {
                        let ghost before = self@;
                        self.fields[selected].key_down(key, modifiers);
                        assert(self@.fields =~= before.after_key(key, modifiers.control).fields);
                    },
                    None => {},
                }
            },
        }
    }

    /// The form with one more field, for a line of text.
    pub fn textbox(self, key: &'static str, title: String) -> (form: Form)
        requires
            self@.in_bounds(),
        ensures
            form@ == self@.with(
                FieldView { key: key@, title: title@, entry: Entry::Text(empty_line(false)) },
            ),
            form@.in_bounds(),
    {
        self.add(Field { key, title, input_type: InputType::Text(StringInput::default()) })
    }

    /// The form with one more field, for a line of text that is kept from
    /// view.
    pub fn password(self, key: &'static str, title: String) -> (form: Form)
        requires
            self@.in_bounds(),
        ensures
            form@ == self@.with(
                FieldView { key: key@, title: title@, entry: Entry::Text(empty_line(true)) },
            ),
            form@.in_bounds(),
    {
        self.add(
            Field {
                key,
                title,
                input_type: InputType::Text(StringInput::default().conceal(true)),
            },
        )
    }

    /// The form with one more field, for a number.
    pub fn slider(
        self,
        key: &'static str,
        title: String,
        default: u64,
        min: u64,
        max: u64,
        step: u64,
    ) -> (form: Form)
        requires
            self@.in_bounds(),
            min <= default <= max,
        ensures
            form@ == self@.with(
                FieldView {
                    key: key@,
                    title: title@,
                    entry: Entry::Number(Dial { default, value: default, min, max, step }),
                },
            ),
            form@.in_bounds(),
    {
        self.add(
            Field {
                key,
                title,
                input_type: InputType::Number(NumericalInput::new(default, min, max, step)),
            },
        )
    }

    /// The form with one more field, for yes or no: a number that is one or
    /// zero.
    pub fn checkbox(self, key: &'static str, title: String, default: bool) -> (form: Form)
        requires
            self@.in_bounds(),
        ensures
            form@ == self@.with(
                FieldView {
                    key: key@,
                    title: title@,
                    entry: Entry::Number(
                        Dial {
                            default: if default {
                                1u64
                            } else {
                                0u64
                            },
                            value: if default {
                                1u64
                            } else {
                                0u64
                            },
                            min: 0,
                            max: 1,
                            step: 1,
                        },
                    ),
                },
            ),
            form@.in_bounds(),
    {
        self.slider(key, title, if default { 1 } else { 0 }, 0, 1, 1)
    }

    /// The fields, from top to bottom.
    pub fn fields(&self) -> (fields: &[Field])
        ensures
            field_views(fields@) == self@.fields,
    {
        self.fields.as_slice()
    }

    /// The number of bytes of the longest title of the fields.
    fn widest(&self) -> (width: usize)
        ensures
            width == widest_title(self@.fields),
    {
        let ghost views = self@.fields;
        let mut width: usize = 0;
        let mut i: usize = 0;
        assert(views.take(0) =~= Seq::<FieldView>::empty());
        while i < self.fields.len()
            invariant
                i <= self.fields.len(),
                views == field_views(self.fields@),
                width == widest_title(views.take(i as int)),
            decreases self.fields.len() - i,
        {
            proof {
                assert(views.take(i + 1).drop_last() =~= views.take(i as int));
                assert(views.take(i + 1).last() == views[i as int]);
            }
            let len = self.fields[i].title.as_str().as_bytes().len();
            assert(len == title_width(views[i as int].title));
            if len >= width {
                width = len;
            }
            i += 1;
        }
        assert(views.take(self.fields.len() as int) =~= views);
        width
    }

    /// How the fields are shown, one line for each: its title, all titles
    /// ending one under the other, and what the field holds, with the caret if
    /// the field is selected.
    pub fn lines(&self) -> (lines: Vec<Vec<Span>>)
        ensures
            lines.len() == self@.fields.len(),
            forall|i: int| 0 <= i < lines.len() ==> span_views(#[trigger] lines[i]@) == self@.line(i),
    {
        let ghost views = self@.fields;
        let width = self.widest();
        let mut lines: Vec<Vec<Span>> = Vec::new();
        let mut i: usize = 0;
        while i < self.fields.len()
            invariant
                i <= self.fields.len(),
                views == field_views(self.fields@),
                views == self@.fields,
                width == widest_title(views),
                lines.len() == i,
                forall|k: int| 0 <= k < i ==> span_views(#[trigger] lines[k]@) == self@.line(k),
            decreases self.fields.len() - i,
        {
            let field = &self.fields[i];
            let title = field.title.as_str();
            proof {
                lemma_widest_title(views, i as int);
                assert(views[i as int] == field@);
            }
            let padding = width - title.as_bytes().len();
            let mut text = String::new();
            let mut k: usize = 0;
            while k < padding
                invariant
                    k <= padding,
                    text@ == Seq::new(k as nat, |j: int| ' '),
                decreases padding - k,
            {
                text.push(' ');
                k += 1;
                assert(text@ =~= Seq::new(k as nat, |j: int| ' '));
            }
            text.append(title);
            text.push(':');
            text.push(' ');
            assert(text@ =~= label(title@, width as nat));
            let selected = match self.selected {
                Some(at) => at == i,
                None => false,
            };
            let mut line: Vec<Span> = Vec::new();
            line.push(Span { text, reversed: false });
            let mut shown = field.format_input(selected);
            let ghost first = span_views(line@);
            let ghost rest = span_views(shown@);
            line.append(&mut shown);
            assert(span_views(line@) =~= first + rest);
            assert(first =~= seq![(label(title@, width as nat), false)]);
            lines.push(line);
            i += 1;
        }
        lines
    }

    /// The field under this name: of several with the name, the last.
    pub fn get_field(&self, key: &str) -> (field: Option<&Field>)
        ensures
            match found(self@.fields, key@) {
                Some(i) => field matches Some(at) && at@ == self@.fields[i],
                None => field is None,
            },
    {
        let ghost views = self@.fields;
        let mut i: usize = self.fields.len();
        assert(views.take(i as int) =~= views);
        while i > 0
            invariant
                i <= self.fields.len(),
                views == field_views(self.fields@),
                found(views, key@) == found(views.take(i as int), key@),
            decreases i,
        {
            proof {
                assert(views.take(i as int).drop_last() =~= views.take(i - 1));
            }
            i -= 1;
            if same_text(self.fields[i].key, key) {
                return Some(&self.fields[i]);
            }
        }
        None
    }

    /// The number that the field under this name holds, if there is such a
    /// field and it holds a number.
    pub fn get_integer(&self, key: &str) -> (value: Option<u64>)
        ensures
            value == self@.integer(key@),
    {
        match self.get_field(key) {
            Some(field) => match &field.input_type {
                InputType::Number(input) => Some(input.value()),
                InputType::Text(_) => None,
            },
            None => None,
        }
    }

    /// Whether the number that the field under this name holds is not zero,
    /// if there is such a field and it holds a number.
    pub fn get_bool(&self, key: &str) -> (value: Option<bool>)
        ensures
            value == match self@.integer(key@) {
                Some(number) => Some(number != 0),
                None => None,
            },
    {
        match self.get_integer(key) {
            Some(number) => Some(number != 0),
            None => None,
        }
    }

    /// The text that the field under this name holds, if there is such a
    /// field and it holds text.
    pub fn get_string(&self, key: &str) -> (value: Option<String>)
        ensures
            match self@.string(key@) {
                Some(text) => value matches Some(held) && held@ == text,
                None => value is None,
            },
    {
        match self.get_field(key) {
            Some(field) => match &field.input_type {
                InputType::Text(input) => Some(input.value()),
                InputType::Number(_) => None,
            },
            None => None,
        }
    }

    /// The form with one more field after the others. The first field of a
    /// form is selected when it is added.
    fn add(self, field: Field) -> (form: Form)
        requires
            self@.in_bounds(),
        ensures
            form@ == self@.with(field@),
            form@.in_bounds(),
    {
        let mut form = self;
        if form.selected.is_none() {
            form.selected = Some(0);
        }
        form.fields.push(field);
        assert(form@.fields =~= self@.fields.push(field@));
        form
    }

    /// Moves the selection by `delta` fields, as far as the form goes.
    fn move_selected(&mut self, delta: isize)
        requires
            old(self)@.in_bounds(),
        ensures
            final(self)@ == old(self)@.after_move(delta as int),
            final(self)@.in_bounds(),
    {
        match self.selected {
            Some(prev) => {
                self.selected = Some(shift(prev, delta, self.fields.len()));
            },
            None => {},
        }
    }
}

} // verus!
