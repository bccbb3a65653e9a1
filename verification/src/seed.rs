//! What a password is made from: the character classes and the [`Seed`].

use vstd::prelude::*;

verus! {

/// Upper-case letters. `I` and `O` are left out: they are too easily taken for `l` and `0`.
/// In ASCII: `ABCDEFGHJKLMNPQRSTUVWXYZ`.
pub const UPPER_CASE: [u8; 24] = [
    65, 66, 67, 68, 69, 70, 71, 72, 74, 75, 76, 77, 78, 80, 81, 82, 83, 84, 85, 86, 87, 88,
    89, 90,
];

/// Lower-case letters. `l` is left out: it is too easily taken for `I`.
/// In ASCII: `abcdefghijkmnopqrstuvwxyz`.
pub const LOWER_CASE: [u8; 25] = [
    97, 98, 99, 100, 101, 102, 103, 104, 105, 106, 107, 109, 110, 111, 112, 113, 114, 115,
    116, 117, 118, 119, 120, 121, 122,
];

/// Digits. `0` is left out: it is too easily taken for `O`.
/// In ASCII: `123456789`.
pub const NUMERICAL: [u8; 9] = [
    49, 50, 51, 52, 53, 54, 55, 56, 57,
];

/// Punctuation that most services accept in a password.
/// In ASCII: `!#&()*+,-.<=>?@[]_`.
pub const SPECIAL: [u8; 18] = [
    33, 35, 38, 40, 41, 42, 43, 44, 45, 46, 60, 61, 62, 63, 64, 91, 93, 95,
];

/// Punctuation that some services refuse, and the space.
/// In ASCII: `"$%/:;\^{|}~` and ` `.
pub const RARE: [u8; 13] = [
    34, 36, 37, 47, 58, 59, 92, 94, 123, 124, 125, 126, 32,
];

/// One of the five character classes, in their fixed order.
///
/// The order never changes: the stored form of [`Characters`] depends on it.
#[derive(Clone, Copy, PartialEq, Eq, Structural, Debug, Hash)]
pub enum CharacterClass {
    UpperCase,
    LowerCase,
    Numerical,
    Special,
    Rare,
}

impl CharacterClass {
    /// The bytes of this class.
    pub open spec fn alphabet(self) -> Seq<u8> {
        match self {
            CharacterClass::UpperCase => UPPER_CASE@,
            CharacterClass::LowerCase => LOWER_CASE@,
            CharacterClass::Numerical => NUMERICAL@,
            CharacterClass::Special => SPECIAL@,
            CharacterClass::Rare => RARE@,
        }
    }

    /// The value of this class in the stored bit mask.
    pub open spec fn mask(self) -> int {
        match self {
            CharacterClass::UpperCase => 1,
            CharacterClass::LowerCase => 2,
            CharacterClass::Numerical => 4,
            CharacterClass::Special => 8,
            CharacterClass::Rare => 16,
        }
    }

    /// The letter that stands for this class when a selection is displayed.
    pub open spec fn letter(self) -> char {
        match self {
            CharacterClass::UpperCase => 'U',
            CharacterClass::LowerCase => 'L',
            CharacterClass::Numerical => 'N',
            CharacterClass::Special => 'S',
            CharacterClass::Rare => 'R',
        }
    }

    /// The bytes of this class.
    pub fn bytes(self) -> (r: &'static [u8])
        ensures
            r@ == self.alphabet(),
    {
        match self {
            CharacterClass::UpperCase => UPPER_CASE.as_slice(),
            CharacterClass::LowerCase => LOWER_CASE.as_slice(),
            CharacterClass::Numerical => NUMERICAL.as_slice(),
            CharacterClass::Special => SPECIAL.as_slice(),
            CharacterClass::Rare => RARE.as_slice(),
        }
    }

    /// The letter that stands for this class when a selection is displayed.
    pub fn symbol(self) -> (r: char)
        ensures
            r == self.letter(),
    {
        match self {
            CharacterClass::UpperCase => 'U',
            CharacterClass::LowerCase => 'L',
            CharacterClass::Numerical => 'N',
            CharacterClass::Special => 'S',
            CharacterClass::Rare => 'R',
        }
    }
}

/// A selection among the five character classes.
///
/// Its stored form is a bit mask, one bit for each class: see [`Characters::bits`].
#[derive(Clone, Copy, PartialEq, Eq, Structural, Debug, Hash)]
pub struct Characters {
    pub upper_case: bool,
    pub lower_case: bool,
    pub numerical: bool,
    pub special: bool,
    pub rare: bool,
}

/// A byte's five lowest binary digits add up to the byte modulo 32.
proof fn lemma_mask_digits(bits: u8)
    ensures
        bits % 32 == bits % 2 + 2 * ((bits / 2) % 2) + 4 * ((bits / 4) % 2) + 8 * ((bits / 8) % 2)
            + 16 * ((bits / 16) % 2),
        bits % 2 <= 1,
        (bits / 2) % 2 <= 1,
        (bits / 4) % 2 <= 1,
        (bits / 8) % 2 <= 1,
        (bits / 16) % 2 <= 1,
{
    assert(bits % 32 == bits % 2 + 2 * ((bits / 2) % 2) + 4 * ((bits / 4) % 2) + 8 * ((bits / 8)
        % 2) + 16 * ((bits / 16) % 2)) by (bit_vector);
}

/// What each of the slices holds.
pub open spec fn alphabets(slices: Seq<&'static [u8]>) -> Seq<Seq<u8>> {
    Seq::new(slices.len(), |i: int| slices[i]@)
}

/// Whether the character is one of the bytes of the alphabet.
pub open spec fn in_alphabet(c: char, alphabet: Seq<u8>) -> bool {
    exists|k: int| 0 <= k < alphabet.len() && (#[trigger] alphabet[k]) as char == c
}

/// The one-element sequence `[class]` if `selected`, else the empty sequence.
pub open spec fn class_if(selected: bool, class: CharacterClass) -> Seq<CharacterClass> {
    if selected {
        seq![class]
    } else {
        Seq::empty()
    }
}

impl Characters {
    /// Whether `class` is selected.
    pub open spec fn has(self, class: CharacterClass) -> bool {
        match class {
            CharacterClass::UpperCase => self.upper_case,
            CharacterClass::LowerCase => self.lower_case,
            CharacterClass::Numerical => self.numerical,
            CharacterClass::Special => self.special,
            CharacterClass::Rare => self.rare,
        }
    }

    /// The selected classes, in the fixed order of the classes.
    pub open spec fn selected(self) -> Seq<CharacterClass> {
        class_if(self.upper_case, CharacterClass::UpperCase)
            + class_if(self.lower_case, CharacterClass::LowerCase)
            + class_if(self.numerical, CharacterClass::Numerical)
            + class_if(self.special, CharacterClass::Special)
            + class_if(self.rare, CharacterClass::Rare)
    }

    /// Whether the character belongs to one of the selected classes.
    pub open spec fn admits(self, c: char) -> bool {
        exists|class: CharacterClass| self.has(class) && #[trigger] in_alphabet(c, class.alphabet())
    }

    /// The alphabets of the selected classes, in the fixed order of the classes.
    pub open spec fn sets(self) -> Seq<Seq<u8>> {
        self.selected().map_values(|class: CharacterClass| class.alphabet())
    }

    /// The bit mask that stands for this selection: the sum of the masks of the
    /// selected classes.
    pub open spec fn mask(self) -> int {
        (if self.upper_case { 1int } else { 0 })
            + (if self.lower_case { 2int } else { 0 })
            + (if self.numerical { 4int } else { 0 })
            + (if self.special { 8int } else { 0 })
            + (if self.rare { 16int } else { 0 })
    }

    /// The selection that a bit mask stands for. Bits above the fifth are ignored.
    pub open spec fn of_mask(mask: int) -> Characters {
        Characters {
            upper_case: mask % 2 == 1,
            lower_case: (mask / 2) % 2 == 1,
            numerical: (mask / 4) % 2 == 1,
            special: (mask / 8) % 2 == 1,
            rare: (mask / 16) % 2 == 1,
        }
    }

    /// What [`Characters::to_string`] displays.
    pub open spec fn display(self) -> Seq<char> {
        seq![
            if self.upper_case { 'U' } else { '-' },
            if self.lower_case { 'L' } else { '-' },
            if self.numerical { 'N' } else { '-' },
            if self.special { 'S' } else { '-' },
            if self.rare { 'R' } else { '-' },
        ]
    }

    /// The selection that holds no class.
    pub open spec fn none() -> Characters {
        Characters {
            upper_case: false,
            lower_case: false,
            numerical: false,
            special: false,
            rare: false,
        }
    }

    /// This selection with `class` added.
    pub open spec fn and(self, class: CharacterClass) -> Characters {
        match class {
            CharacterClass::UpperCase => Characters { upper_case: true, ..self },
            CharacterClass::LowerCase => Characters { lower_case: true, ..self },
            CharacterClass::Numerical => Characters { numerical: true, ..self },
            CharacterClass::Special => Characters { special: true, ..self },
            CharacterClass::Rare => Characters { rare: true, ..self },
        }
    }

    /// The classes that are selected in `self`, in `other`, or in both.
    pub open spec fn or(self, other: Characters) -> Characters {
        Characters {
            upper_case: self.upper_case || other.upper_case,
            lower_case: self.lower_case || other.lower_case,
            numerical: self.numerical || other.numerical,
            special: self.special || other.special,
            rare: self.rare || other.rare,
        }
    }

    /// The selection that holds no class.
    pub fn empty() -> (r: Characters)
        ensures
            r == Characters::none(),
            forall|class: CharacterClass| !r.has(class),
            r.mask() == 0,
    {
        Characters {
            upper_case: false,
            lower_case: false,
            numerical: false,
            special: false,
            rare: false,
        }
    }

    /// The selection that holds every class.
    pub fn all() -> (r: Characters)
        ensures
            r == (Characters {
                upper_case: true,
                lower_case: true,
                numerical: true,
                special: true,
                rare: true,
            }),
            forall|class: CharacterClass| r.has(class),
            r.mask() == 31,
    {
        Characters { upper_case: true, lower_case: true, numerical: true, special: true, rare: true }
    }

    /// The selection that holds `class` and no other.
    pub fn single(class: CharacterClass) -> (r: Characters)
        ensures
            r == Characters::none().and(class),
            forall|other: CharacterClass| r.has(other) == (other == class),
            r.mask() == class.mask(),
    {
        Characters::empty().with(class)
    }

    /// This selection with `class` added.
    pub fn with(self, class: CharacterClass) -> (r: Characters)
        ensures
            r == self.and(class),
            forall|other: CharacterClass| r.has(other) == (self.has(other) || other == class),
            r.mask() == self.mask() + if self.has(class) { 0 } else { class.mask() },
    {
        let mut r = self;
        match class {
            CharacterClass::UpperCase => r.upper_case = true,
            CharacterClass::LowerCase => r.lower_case = true,
            CharacterClass::Numerical => r.numerical = true,
            CharacterClass::Special => r.special = true,
            CharacterClass::Rare => r.rare = true,
        }
        r
    }

    /// The classes that are selected in `self`, in `other`, or in both.
    pub fn union(self, other: Characters) -> (r: Characters)
        ensures
            r == self.or(other),
            forall|class: CharacterClass| r.has(class) == (self.has(class) || other.has(class)),
    {
        Characters {
            upper_case: self.upper_case || other.upper_case,
            lower_case: self.lower_case || other.lower_case,
            numerical: self.numerical || other.numerical,
            special: self.special || other.special,
            rare: self.rare || other.rare,
        }
    }

    /// Whether `class` is selected.
    pub fn contains(&self, class: CharacterClass) -> (r: bool)
        ensures
            r == self.has(class),
    {
        match class {
            CharacterClass::UpperCase => self.upper_case,
            CharacterClass::LowerCase => self.lower_case,
            CharacterClass::Numerical => self.numerical,
            CharacterClass::Special => self.special,
            CharacterClass::Rare => self.rare,
        }
    }

    /// Whether no class is selected.
    pub fn is_empty(&self) -> (r: bool)
        ensures
            r == (self.selected().len() == 0),
            r == (self.mask() == 0),
    {
        !(self.upper_case || self.lower_case || self.numerical || self.special || self.rare)
    }

    /// How many classes are selected.
    pub fn count(&self) -> (r: usize)
        ensures
            r == self.selected().len(),
            r <= 5,
    {
        let mut r: usize = 0;
        if self.upper_case {
            r += 1;
        }
        if self.lower_case {
            r += 1;
        }
        if self.numerical {
            r += 1;
        }
        if self.special {
            r += 1;
        }
        if self.rare {
            r += 1;
        }
        r
    }

    /// The bit mask under which this selection is stored.
    pub fn bits(&self) -> (r: u8)
        ensures
            r == self.mask(),
            r < 32,
    {
        let mut r: u8 = 0;
        if self.upper_case {
            r += 1;
        }
        if self.lower_case {
            r += 2;
        }
        if self.numerical {
            r += 4;
        }
        if self.special {
            r += 8;
        }
        if self.rare {
            r += 16;
        }
        r
    }

    /// The selection that a stored bit mask stands for, or `None` where the mask
    /// has a bit that stands for no class.
    pub fn from_bits(bits: u8) -> (r: Option<Characters>)
        ensures
            r.is_some() == (bits < 32),
            r matches Some(characters) ==> characters == Characters::of_mask(bits as int)
                && characters.mask() == bits,
    {
        if bits < 32 {
            Some(Characters::from_bits_truncate(bits))
        } else {
            None
        }
    }

    /// The selection that a stored bit mask stands for, the bits that stand for
    /// no class ignored.
    pub fn from_bits_truncate(bits: u8) -> (r: Characters)
        ensures
            r == Characters::of_mask(bits as int),
            r.mask() == bits % 32,
    {
        proof {
            lemma_mask_digits(bits);
        }
        Characters {
            upper_case: bits % 2 == 1,
            lower_case: (bits / 2) % 2 == 1,
            numerical: (bits / 4) % 2 == 1,
            special: (bits / 8) % 2 == 1,
            rare: (bits / 16) % 2 == 1,
        }
    }

    /// The alphabets of the selected classes, in the fixed order of the classes.
    pub fn get(&self) -> (r: Vec<&'static [u8]>)
        ensures
            alphabets(r@) == self.sets(),
    {
        let mut r: Vec<&'static [u8]> = Vec::new();
        if self.upper_case {
            r.push(CharacterClass::UpperCase.bytes());
        }
        if self.lower_case {
            r.push(CharacterClass::LowerCase.bytes());
        }
        if self.numerical {
            r.push(CharacterClass::Numerical.bytes());
        }
        if self.special {
            r.push(CharacterClass::Special.bytes());
        }
        if self.rare {
            r.push(CharacterClass::Rare.bytes());
        }
        assert(alphabets(r@) =~= self.sets());
        r
    }

    /// The selection in five characters, one for each class in the fixed order:
    /// the letter of the class where it is selected, `-` where it is not.
    pub fn to_string(&self) -> (r: String)
        ensures
            r@ == self.display(),
    {
        let mut r = String::new();
        r.push(if self.upper_case { 'U' } else { '-' });
        r.push(if self.lower_case { 'L' } else { '-' });
        r.push(if self.numerical { 'N' } else { '-' });
        r.push(if self.special { 'S' } else { '-' });
        r.push(if self.rare { 'R' } else { '-' });
        assert(r@ =~= self.display());
        r
    }
}

impl core::ops::BitOr for Characters {
    type Output = Characters;

    /// The classes that are selected in `self`, in `other`, or in both.
    fn bitor(self, other: Characters) -> (r: Characters) {
        self.union(other)
    }
}

impl vstd::std_specs::ops::BitOrSpecImpl for Characters {
    open spec fn obeys_bitor_spec() -> bool {
        true
    }

    open spec fn bitor_req(self, other: Characters) -> bool {
        true
    }

    open spec fn bitor_spec(self, other: Characters) -> Characters {
        self.or(other)
    }
}

/// Where each class lies among the bytes.
spec fn lies_in(class: CharacterClass, byte: u8) -> bool {
    match class {
        CharacterClass::UpperCase => 65 <= byte <= 90 && byte != 73 && byte != 79,
        CharacterClass::LowerCase => 97 <= byte <= 122 && byte != 108,
        CharacterClass::Numerical => 49 <= byte <= 57,
        CharacterClass::Special => byte == 33 || byte == 35 || byte == 38 || (40 <= byte <= 46) || (60
            <= byte <= 64) || byte == 91 || byte == 93 || byte == 95,
        CharacterClass::Rare => byte == 32 || byte == 34 || byte == 36 || byte == 37 || byte == 47
            || byte == 58 || byte == 59 || byte == 92 || byte == 94 || (123 <= byte <= 126),
    }
}

/// Every byte of a class lies where the class lies.
proof fn lemma_lies_in(class: CharacterClass, k: int)
    requires
        0 <= k < class.alphabet().len(),
    ensures
        lies_in(class, class.alphabet()[k]),
{
    match class {
        CharacterClass::UpperCase => {
            assert(forall|i: int| 0 <= i < 24 ==> lies_in(class, #[trigger] UPPER_CASE@[i]));
        },
        CharacterClass::LowerCase => {
            assert(forall|i: int| 0 <= i < 25 ==> lies_in(class, #[trigger] LOWER_CASE@[i]));
        },
        CharacterClass::Numerical => {
            assert(forall|i: int| 0 <= i < 9 ==> lies_in(class, #[trigger] NUMERICAL@[i]));
        },
        CharacterClass::Special => {
            assert(forall|i: int| 0 <= i < 18 ==> lies_in(class, #[trigger] SPECIAL@[i]));
        },
        CharacterClass::Rare => {
            assert(forall|i: int| 0 <= i < 13 ==> lies_in(class, #[trigger] RARE@[i]));
        },
    }
}

/// No byte belongs to two classes, and none is one of `I`, `O`, `l` and `0`,
/// which are too easily taken for one another.
pub proof fn lemma_classes_apart(a: CharacterClass, b: CharacterClass, byte: u8)
    requires
        a.alphabet().contains(byte),
    ensures
        b.alphabet().contains(byte) ==> a == b,
        byte != 73 && byte != 79 && byte != 108 && byte != 48,
{
    let i = choose|i: int| 0 <= i < a.alphabet().len() && a.alphabet()[i] == byte;
    lemma_lies_in(a, i);
    if b.alphabet().contains(byte) {
        let j = choose|j: int| 0 <= j < b.alphabet().len() && b.alphabet()[j] == byte;
        lemma_lies_in(b, j);
    }
}

/// The stored form loses nothing: the bit mask of a selection stands for
/// that selection, and a bit mask below 32 is the bit mask of the selection
/// that it stands for.
pub proof fn lemma_mask_round_trip(characters: Characters, bits: u8)
    ensures
        0 <= characters.mask() < 32,
        Characters::of_mask(characters.mask()) == characters,
        bits < 32 ==> Characters::of_mask(bits as int).mask() == bits,
{
    lemma_mask_digits(bits);
}

/// The selected classes are the classes that the selection has, and no
/// others.
pub proof fn lemma_selected(characters: Characters)
    ensures
        forall|k: int|
            0 <= k < characters.selected().len() ==> characters.has(
                #[trigger] characters.selected()[k],
            ),
        forall|class: CharacterClass|
            characters.has(class) ==> exists|k: int|
                0 <= k < characters.selected().len() && #[trigger] characters.selected()[k]
                    == class,
        characters.selected().len() <= 5,
{
    let a = class_if(characters.upper_case, CharacterClass::UpperCase);
    let b = class_if(characters.lower_case, CharacterClass::LowerCase);
    let c = class_if(characters.numerical, CharacterClass::Numerical);
    let d = class_if(characters.special, CharacterClass::Special);
    let e = class_if(characters.rare, CharacterClass::Rare);
    let all = characters.selected();
    assert(all == a + b + c + d + e);
    assert forall|k: int| 0 <= k < all.len() implies characters.has(#[trigger] all[k]) by {
        if k < a.len() {
            assert(all[k] == a[k]);
        } else if k < a.len() + b.len() {
            assert(all[k] == b[k - a.len()]);
        } else if k < a.len() + b.len() + c.len() {
            assert(all[k] == c[k - a.len() - b.len()]);
        } else if k < a.len() + b.len() + c.len() + d.len() {
            assert(all[k] == d[k - a.len() - b.len() - c.len()]);
        } else {
            assert(all[k] == e[k - a.len() - b.len() - c.len() - d.len()]);
        }
    }
    assert forall|class: CharacterClass| characters.has(class) implies exists|k: int|
        0 <= k < all.len() && #[trigger] all[k] == class by {
        let k = match class {
            CharacterClass::UpperCase => 0,
            CharacterClass::LowerCase => a.len() as int,
            CharacterClass::Numerical => (a.len() + b.len()) as int,
            CharacterClass::Special => (a.len() + b.len() + c.len()) as int,
            CharacterClass::Rare => (a.len() + b.len() + c.len() + d.len()) as int,
        };
        assert(all[k] == class);
    }
}

/// How one password is made.
#[derive(Debug, Hash)]
pub struct Seed {
    /// Names the password, for example after the service it is for. Part of
    /// what the password is derived from.
    pub identifier: String,
    /// The number of characters of the password.
    pub length: u32,
    /// Changes the password while everything else stays as it is. No secret.
    pub salt: u64,
    /// The character classes that the password is made of.
    pub characters: Characters,
    /// The user name at the service. Kept for the user's convenience: no part
    /// of what the password is derived from.
    pub username: Option<String>,
}

impl Clone for Seed {
    fn clone(&self) -> (r: Seed)
        ensures
            r == *self,
    {
        Seed {
            identifier: self.identifier.clone(),
            length: self.length,
            salt: self.salt,
            characters: self.characters,
            username: self.username.clone(),
        }
    }
}

} // verus!
