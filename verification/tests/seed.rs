use svalbard::seed::{
    CharacterClass, Characters, Seed, LOWER_CASE, NUMERICAL, RARE, SPECIAL, UPPER_CASE,
};

const U: &[u8] = &UPPER_CASE;
const L: &[u8] = &LOWER_CASE;
const N: &[u8] = &NUMERICAL;
const S: &[u8] = &SPECIAL;
const R: &[u8] = &RARE;

fn upper() -> Characters {
    Characters::single(CharacterClass::UpperCase)
}

fn lower() -> Characters {
    Characters::single(CharacterClass::LowerCase)
}

fn numerical() -> Characters {
    Characters::single(CharacterClass::Numerical)
}

fn special() -> Characters {
    Characters::single(CharacterClass::Special)
}

fn rare() -> Characters {
    Characters::single(CharacterClass::Rare)
}

#[test]
fn character_get() {
    assert_eq!(upper().get(), [U]);
    assert_eq!(lower().get(), [L]);
    assert_eq!(numerical().get(), [N]);
    assert_eq!(special().get(), [S]);
    assert_eq!(rare().get(), [R]);

    assert_eq!((upper() | lower()).get(), [U, L]);
    assert_eq!((lower() | numerical()).get(), [L, N]);
    assert_eq!((lower() | numerical() | special()).get(), [L, N, S]);
    assert_eq!(Characters::all().get(), [U, L, N, S, R]);
}

#[test]
fn characters_to_string() {
    let data = [
        (lower(), "-L---"),
        (upper(), "U----"),
        (upper() | rare(), "U---R"),
        (Characters::all(), "ULNSR"),
    ];

    for (set, str) in data {
        assert_eq!(set.to_string(), str);
    }
}

#[test]
fn alphabets_are_the_documented_ones() {
    assert_eq!(U, b"ABCDEFGHJKLMNPQRSTUVWXYZ");
    assert_eq!(L, b"abcdefghijkmnopqrstuvwxyz");
    assert_eq!(N, b"123456789");
    assert_eq!(S, b"!#&()*+,-.<=>?@[]_");
    assert_eq!(R, b"\"$%/:;\\^{|}~ ");
}

#[test]
fn alphabets_leave_out_what_is_easily_confused() {
    for set in Characters::all().get() {
        for confusable in b"IOl0" {
            assert!(!set.contains(confusable));
        }
    }
}

#[test]
fn alphabets_are_disjoint() {
    let sets = Characters::all().get();
    for (i, a) in sets.iter().enumerate() {
        for (j, b) in sets.iter().enumerate() {
            if i != j {
                assert!(a.iter().all(|byte| !b.contains(byte)));
            }
        }
    }
}

#[test]
fn union_is_the_bar_operator() {
    assert_eq!(upper().union(lower()), upper() | lower());
    assert_eq!(upper().union(upper()), upper());
    assert_eq!(Characters::empty() | rare(), rare());
    assert_eq!((upper() | rare()).bits(), 17);
}

#[test]
fn empty_selection() {
    let none = Characters::empty();
    assert!(none.is_empty());
    assert_eq!(none.count(), 0);
    assert_eq!(none.bits(), 0);
    assert!(none.get().is_empty());
    assert_eq!(none.to_string(), "-----");
}

#[test]
fn bits_are_one_per_class_in_the_fixed_order() {
    assert_eq!(upper().bits(), 1);
    assert_eq!(lower().bits(), 2);
    assert_eq!(numerical().bits(), 4);
    assert_eq!(special().bits(), 8);
    assert_eq!(rare().bits(), 16);
    assert_eq!(Characters::all().bits(), 31);
    assert_eq!(lower().union(special()).bits(), 10);
}

#[test]
fn bits_round_trip() {
    for bits in 0u8..32 {
        let characters = Characters::from_bits(bits).unwrap();
        assert_eq!(characters.bits(), bits);
        assert_eq!(Characters::from_bits_truncate(bits), characters);
        assert_eq!(characters.count() as u32, bits.count_ones());
    }
}

#[test]
fn bits_that_stand_for_no_class() {
    assert_eq!(Characters::from_bits(32), None);
    assert_eq!(Characters::from_bits(255), None);
    assert_eq!(Characters::from_bits_truncate(32), Characters::empty());
    assert_eq!(Characters::from_bits_truncate(255), Characters::all());
    assert_eq!(Characters::from_bits_truncate(33), upper());
}

#[test]
fn with_and_contains() {
    let picked = Characters::empty().with(CharacterClass::Numerical).with(CharacterClass::Rare);
    assert!(picked.contains(CharacterClass::Numerical));
    assert!(picked.contains(CharacterClass::Rare));
    assert!(!picked.contains(CharacterClass::UpperCase));
    assert_eq!(picked.count(), 2);
    assert_eq!(picked.with(CharacterClass::Rare), picked);
    assert_eq!(picked.get(), [N, R]);
}

#[test]
fn class_bytes_and_symbols() {
    assert_eq!(CharacterClass::UpperCase.bytes(), U);
    assert_eq!(CharacterClass::Rare.bytes(), R);
    assert_eq!(CharacterClass::UpperCase.symbol(), 'U');
    assert_eq!(CharacterClass::LowerCase.symbol(), 'L');
    assert_eq!(CharacterClass::Numerical.symbol(), 'N');
    assert_eq!(CharacterClass::Special.symbol(), 'S');
    assert_eq!(CharacterClass::Rare.symbol(), 'R');
}

#[test]
fn seed_clone_keeps_every_field() {
    let seed = Seed {
        identifier: "GitHub".to_string(),
        length: 24,
        salt: 7,
        characters: upper().union(numerical()),
        username: Some("octocat".to_string()),
    };
    let copy = seed.clone();
    assert_eq!(copy.identifier, "GitHub");
    assert_eq!(copy.length, 24);
    assert_eq!(copy.salt, 7);
    assert_eq!(copy.characters, seed.characters);
    assert_eq!(copy.username, Some("octocat".to_string()));
}
