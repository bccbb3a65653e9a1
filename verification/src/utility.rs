//! Numbers that an input can hold, and pieces of layout.

use vstd::prelude::*;

use crate::text::{decimal_string, signed_decimal};
use crate::trusted::{line_views, wrap, wrapped};

verus! {

/// A whole number of a machine type, as far as an input needs it: it can be
/// told from another, stepped up and down within its type, and written out.
pub trait Number: Copy + Sized {
    /// The number.
    spec fn as_int(self) -> int;

    /// Whether the type has this number.
    spec fn fits(value: int) -> bool;

    /// The type has the number of each of its values, and no two of its
    /// values have the same number.
    proof fn lemma_number(a: Self, b: Self)
        ensures
            Self::fits(a.as_int()),
            a.as_int() == b.as_int() ==> a == b,
    ;

    /// Whether this number is the other or greater.
    fn at_least(self, other: Self) -> (r: bool)
        ensures
            r == (self.as_int() >= other.as_int()),
    ;

    /// The sum, if the type has it.
    fn plus(self, other: Self) -> (r: Option<Self>)
        ensures
            r.is_some() == Self::fits(self.as_int() + other.as_int()),
            r matches Some(sum) ==> sum.as_int() == self.as_int() + other.as_int(),
    ;

    /// The difference, if the type has it.
    fn minus(self, other: Self) -> (r: Option<Self>)
        ensures
            r.is_some() == Self::fits(self.as_int() - other.as_int()),
            r matches Some(difference) ==> difference.as_int() == self.as_int() - other.as_int(),
    ;

    /// The number in decimal digits, after a `-` if it is negative.
    fn digits(self) -> (text: String)
        ensures
            text@ == signed_decimal(self.as_int()),
    ;
}

impl Number for u8 {
    open spec fn as_int(self) -> int {
        self as int
    }

    open spec fn fits(value: int) -> bool {
        0 <= value <= 0xff
    }

    proof fn lemma_number(a: Self, b: Self) {
    }

    fn at_least(self, other: Self) -> (r: bool) {
        self >= other
    }

    fn plus(self, other: Self) -> (r: Option<Self>) {
        if other <= u8::MAX - self {
            Some(self + other)
        } else {
            None
        }
    }

    fn minus(self, other: Self) -> (r: Option<Self>) {
        if other <= self {
            Some(self - other)
        } else {
            None
        }
    }

    fn digits(self) -> (text: String) {
        decimal_string(false, self as u64)
    }
}

impl Number for u16 {
    open spec fn as_int(self) -> int {
        self as int
    }

    open spec fn fits(value: int) -> bool {
        0 <= value <= 0xffff
    }

    proof fn lemma_number(a: Self, b: Self) {
    }

    fn at_least(self, other: Self) -> (r: bool) {
        self >= other
    }

    fn plus(self, other: Self) -> (r: Option<Self>) {
        if other <= u16::MAX - self {
            Some(self + other)
        } else {
            None
        }
    }

    fn minus(self, other: Self) -> (r: Option<Self>) {
        if other <= self {
            Some(self - other)
        } else {
            None
        }
    }

    fn digits(self) -> (text: String) {
        decimal_string(false, self as u64)
    }
}

impl Number for u32 {
    open spec fn as_int(self) -> int {
        self as int
    }

    open spec fn fits(value: int) -> bool {
        0 <= value <= 0xffff_ffff
    }

    proof fn lemma_number(a: Self, b: Self) {
    }

    fn at_least(self, other: Self) -> (r: bool) {
        self >= other
    }

    fn plus(self, other: Self) -> (r: Option<Self>) {
        if other <= u32::MAX - self {
            Some(self + other)
        } else {
            None
        }
    }

    fn minus(self, other: Self) -> (r: Option<Self>) {
        if other <= self {
            Some(self - other)
        } else {
            None
        }
    }

    fn digits(self) -> (text: String) {
        decimal_string(false, self as u64)
    }
}

impl Number for u64 {
    open spec fn as_int(self) -> int {
        self as int
    }

    open spec fn fits(value: int) -> bool {
        0 <= value <= 0xffff_ffff_ffff_ffff
    }

    proof fn lemma_number(a: Self, b: Self) {
    }

    fn at_least(self, other: Self) -> (r: bool) {
        self >= other
    }

    fn plus(self, other: Self) -> (r: Option<Self>) {
        if other <= u64::MAX - self {
            Some(self + other)
        } else {
            None
        }
    }

    fn minus(self, other: Self) -> (r: Option<Self>) {
        if other <= self {
            Some(self - other)
        } else {
            None
        }
    }

    fn digits(self) -> (text: String) {
        decimal_string(false, self as u64)
    }
}

impl Number for usize {
    open spec fn as_int(self) -> int {
        self as int
    }

    open spec fn fits(value: int) -> bool {
        0 <= value <= usize::MAX
    }

    proof fn lemma_number(a: Self, b: Self) {
    }

    fn at_least(self, other: Self) -> (r: bool) {
        self >= other
    }

    fn plus(self, other: Self) -> (r: Option<Self>) {
        if other <= usize::MAX - self {
            Some(self + other)
        } else {
            None
        }
    }

    fn minus(self, other: Self) -> (r: Option<Self>) {
        if other <= self {
            Some(self - other)
        } else {
            None
        }
    }

    fn digits(self) -> (text: String) {
        decimal_string(false, self as u64)
    }
}

impl Number for i8 {
    open spec fn as_int(self) -> int {
        self as int
    }

    open spec fn fits(value: int) -> bool {
        -0x80 <= value <= 0x7f
    }

    proof fn lemma_number(a: Self, b: Self) {
    }

    fn at_least(self, other: Self) -> (r: bool) {
        self >= other
    }

    fn plus(self, other: Self) -> (r: Option<Self>) {
        if other >= 0 {
            if self <= i8::MAX - other {
                Some(self + other)
            } else {
                None
            }
        } else {
            if self >= i8::MIN - other {
                Some(self + other)
            } else {
                None
            }
        }
    }

    fn minus(self, other: Self) -> (r: Option<Self>) {
        if other >= 0 {
            if self >= i8::MIN + other {
                Some(self - other)
            } else {
                None
            }
        } else {
            if self <= i8::MAX + other {
                Some(self - other)
            } else {
                None
            }
        }
    }

    fn digits(self) -> (text: String) {
        if self < 0 {
            decimal_string(true, (-(self + 1)) as u64 + 1)
        } else {
            decimal_string(false, self as u64)
        }
    }
}

impl Number for i16 {
    open spec fn as_int(self) -> int {
        self as int
    }

    open spec fn fits(value: int) -> bool {
        -0x8000 <= value <= 0x7fff
    }

    proof fn lemma_number(a: Self, b: Self) {
    }

    fn at_least(self, other: Self) -> (r: bool) {
        self >= other
    }

    fn plus(self, other: Self) -> (r: Option<Self>) {
        if other >= 0 {
            if self <= i16::MAX - other {
                Some(self + other)
            } else {
                None
            }
        } else {
            if self >= i16::MIN - other {
                Some(self + other)
            } else {
                None
            }
        }
    }

    fn minus(self, other: Self) -> (r: Option<Self>) {
        if other >= 0 {
            if self >= i16::MIN + other {
                Some(self - other)
            } else {
                None
            }
        } else {
            if self <= i16::MAX + other {
                Some(self - other)
            } else {
                None
            }
        }
    }

    fn digits(self) -> (text: String) {
        if self < 0 {
            decimal_string(true, (-(self + 1)) as u64 + 1)
        } else {
            decimal_string(false, self as u64)
        }
    }
}

impl Number for i32 {
    open spec fn as_int(self) -> int {
        self as int
    }

    open spec fn fits(value: int) -> bool {
        -0x8000_0000 <= value <= 0x7fff_ffff
    }

    proof fn lemma_number(a: Self, b: Self) {
    }

    fn at_least(self, other: Self) -> (r: bool) {
        self >= other
    }

    fn plus(self, other: Self) -> (r: Option<Self>) {
        if other >= 0 {
            if self <= i32::MAX - other {
                Some(self + other)
            } else {
                None
            }
        } else {
            if self >= i32::MIN - other {
                Some(self + other)
            } else {
                None
            }
        }
    }

    fn minus(self, other: Self) -> (r: Option<Self>) {
        if other >= 0 {
            if self >= i32::MIN + other {
                Some(self - other)
            } else {
                None
            }
        } else {
            if self <= i32::MAX + other {
                Some(self - other)
            } else {
                None
            }
        }
    }

    fn digits(self) -> (text: String) {
        if self < 0 {
            decimal_string(true, (-(self + 1)) as u64 + 1)
        } else {
            decimal_string(false, self as u64)
        }
    }
}

impl Number for i64 {
    open spec fn as_int(self) -> int {
        self as int
    }

    open spec fn fits(value: int) -> bool {
        -0x8000_0000_0000_0000 <= value <= 0x7fff_ffff_ffff_ffff
    }

    proof fn lemma_number(a: Self, b: Self) {
    }

    fn at_least(self, other: Self) -> (r: bool) {
        self >= other
    }

    fn plus(self, other: Self) -> (r: Option<Self>) {
        if other >= 0 {
            if self <= i64::MAX - other {
                Some(self + other)
            } else {
                None
            }
        } else {
            if self >= i64::MIN - other {
                Some(self + other)
            } else {
                None
            }
        }
    }

    fn minus(self, other: Self) -> (r: Option<Self>) {
        if other >= 0 {
            if self >= i64::MIN + other {
                Some(self - other)
            } else {
                None
            }
        } else {
            if self <= i64::MAX + other {
                Some(self - other)
            } else {
                None
            }
        }
    }

    fn digits(self) -> (text: String) {
        if self < 0 {
            decimal_string(true, (-(self + 1)) as u64 + 1)
        } else {
            decimal_string(false, self as u64)
        }
    }
}

impl Number for isize {
    open spec fn as_int(self) -> int {
        self as int
    }

    open spec fn fits(value: int) -> bool {
        isize::MIN <= value <= isize::MAX
    }

    proof fn lemma_number(a: Self, b: Self) {
    }

    fn at_least(self, other: Self) -> (r: bool) {
        self >= other
    }

    fn plus(self, other: Self) -> (r: Option<Self>) {
        if other >= 0 {
            if self <= isize::MAX - other {
                Some(self + other)
            } else {
                None
            }
        } else {
            if self >= isize::MIN - other {
                Some(self + other)
            } else {
                None
            }
        }
    }

    fn minus(self, other: Self) -> (r: Option<Self>) {
        if other >= 0 {
            if self >= isize::MIN + other {
                Some(self - other)
            } else {
                None
            }
        } else {
            if self <= isize::MAX + other {
                Some(self - other)
            } else {
                None
            }
        }
    }

    fn digits(self) -> (text: String) {
        if self < 0 {
            decimal_string(true, (-(self + 1)) as u64 + 1)
        } else {
            decimal_string(false, self as u64)
        }
    }
}

/// The place that lies `delta` after `from`, or before it where `delta` is
/// negative, among `len` places; the first or the last place where that
/// would lie outside.
pub open spec fn shifted(from: int, delta: int, len: int) -> int {
    if from + delta < 0 {
        0
    } else if from + delta > len - 1 {
        len - 1
    } else {
        from + delta
    }
}

/// The place that lies `delta` after `from` among `len` places, or the first
/// or the last place where that would lie outside.
pub fn shift(from: usize, delta: isize, len: usize) -> (to: usize)
    requires
        from < len,
    ensures
        to == shifted(from as int, delta as int, len as int),
        to < len,
{
    if delta >= 0 {
        let up = delta as usize;
        if up >= len - 1 - from {
            len - 1
        } else {
            from + up
        }
    } else {
        let down = (-(delta + 1)) as usize + 1;
        if down >= from {
            0
        } else {
            from - down
        }
    }
}

/// How far down a widget of this height begins that is centred in an area of
/// this height: half of what the area has more, or zero where the area is
/// not the higher.
pub open spec fn centred_offset(area_height: u16, height: u16) -> int {
    if area_height >= height {
        (area_height - height) / 2
    } else {
        0
    }
}

/// A widget to be shown on so many lines in the middle of its area, from top
/// to bottom.
pub struct CenteredWidget<W> {
    widget: W,
    height: u16,
}

impl<W> CenteredWidget<W> {
    /// The widget.
    pub closed spec fn inner(&self) -> W {
        self.widget
    }

    /// The number of lines on which the widget is shown.
    pub closed spec fn lines(&self) -> u16 {
        self.height
    }

    /// A widget to be shown on `height` lines.
    pub fn new(widget: W, height: u16) -> (centered: Self)
        ensures
            centered.inner() == widget,
            centered.lines() == height,
    {
        CenteredWidget { widget, height }
    }

    /// The number of lines on which the widget is shown.
    pub fn height(&self) -> (height: u16)
        ensures
            height == self.lines(),
    {
        self.height
    }

    /// The widget.
    pub fn widget(&self) -> (widget: &W)
        ensures
            *widget == self.inner(),
    {
        &self.widget
    }

    /// The widget, given back.
    pub fn into_widget(self) -> (widget: W)
        ensures
            widget == self.inner(),
    {
        self.widget
    }

    /// The number of lines that are left free above the widget in an area of
    /// this height.
    pub fn offset(&self, area_height: u16) -> (offset: u16)
        ensures
            offset == centred_offset(area_height, self.lines()),
    {
        if area_height >= self.height {
            (area_height - self.height) / 2
        } else {
            0
        }
    }
}

/// What can be shown in the middle of its area.
pub trait Center {
    /// What is shown.
    type W;

    /// What is shown.
    spec fn centred(self) -> Self::W where Self: Sized;

    /// The number of lines that it takes.
    spec fn centred_height(&self) -> u16;

    /// A widget that shows it in the middle of its area.
    fn center(self) -> (centered: CenteredWidget<Self::W>) where Self: Sized
        ensures
            centered.inner() == self.centred(),
            centered.lines() == self.centred_height(),
    ;
}

/// A text in lines of a given width, shown in one style.
pub struct WrappedString {
    lines: Vec<String>,
    style: tui::style::Style,
}

impl WrappedString {
    /// The lines.
    pub closed spec fn text(&self) -> Seq<Seq<char>> {
        line_views(self.lines@)
    }

    /// The style.
    pub closed spec fn shown_in(&self) -> tui::style::Style {
        self.style
    }

    /// The text in lines of this width, as the `textwrap` crate makes them.
    pub fn new(string: &str, width: u16) -> (wrapped_string: Self)
        ensures
            wrapped_string.text() == wrapped(string@, width),
    {
        WrappedString { lines: wrap(string, width), style: tui::style::Style::default() }
    }

    /// The same lines in this style.
    pub fn style(self, style: tui::style::Style) -> (wrapped_string: Self)
        ensures
            wrapped_string.text() == self.text(),
            wrapped_string.shown_in() == style,
    {
        WrappedString { lines: self.lines, style }
    }

    /// The number of lines, as far as sixteen bits hold it.
    pub fn height(&self) -> (height: u16)
        ensures
            height == self.text().len() % 0x1_0000,
    {
        (self.lines.len() % 0x1_0000) as u16
    }

    /// The lines.
    pub fn lines(&self) -> (lines: &Vec<String>)
        ensures
            line_views(lines@) == self.text(),
    {
        &self.lines
    }

    /// The style.
    pub fn shown_style(&self) -> (style: tui::style::Style)
        ensures
            style == self.shown_in(),
    {
        self.style
    }
}

impl Center for WrappedString {
    type W = WrappedString;

    open spec fn centred(self) -> WrappedString {
        self
    }

    open spec fn centred_height(&self) -> u16 {
        (self.text().len() % 0x1_0000) as u16
    }

    fn center(self) -> (centered: CenteredWidget<WrappedString>) {
        let height = self.height();
        CenteredWidget::new(self, height)
    }
}

} // verus!
