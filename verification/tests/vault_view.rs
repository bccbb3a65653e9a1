use svalbard::input::{Key, Modifiers};
use svalbard::result::VaultError;
use svalbard::seed::{Characters, Seed};
use svalbard::vault::Vault;
use svalbard::vault_view::{filter_seeds, rank, vault_view, Request, VaultView};

const PLAIN: Modifiers = Modifiers { control: false, alt: false };
const CONTROL: Modifiers = Modifiers { control: true, alt: false };
const ALT: Modifiers = Modifiers { control: false, alt: true };

fn seed(identifier: &str) -> Seed {
    Seed {
        identifier: identifier.to_string(),
        length: 16,
        salt: 0,
        characters: Characters::all(),
        username: None,
    }
}

fn seeds(identifiers: &[&str]) -> Vec<Seed> {
    identifiers.iter().map(|identifier| seed(identifier)).collect()
}

fn screen(identifiers: &[&str]) -> VaultView {
    let mut vault =
        Vault::with_pepper("vaults", "test".to_string(), "key", b"0123456789abcdefghij".to_vec(), false)
            .unwrap();
    for identifier in identifiers {
        vault.push(seed(identifier));
    }
    vault_view(vault, None, 42)
}

fn identifiers(screen: &VaultView) -> Vec<String> {
    screen.vault().seeds().iter().map(|seed| seed.identifier.clone()).collect()
}

#[test]
fn rank_lists_the_higher_score_first() {
    assert_eq!(rank(&vec![Some(1), None, Some(5), Some(1), Some(7)]), [4, 2, 0, 3]);
    assert_eq!(rank(&vec![Some(-3), Some(-1), Some(-2)]), [1, 2, 0]);
    assert_eq!(rank(&vec![Some(isize::MIN), Some(isize::MAX)]), [1, 0]);
}

#[test]
fn rank_keeps_the_order_of_equal_scores() {
    assert_eq!(rank(&vec![Some(2), Some(2), Some(2)]), [0, 1, 2]);
    assert_eq!(rank(&vec![Some(1), Some(2), Some(1), Some(2)]), [1, 3, 0, 2]);
}

#[test]
fn rank_leaves_out_what_has_no_score() {
    assert_eq!(rank(&vec![None, None]), []);
    assert_eq!(rank(&Vec::new()), []);
    assert_eq!(rank(&vec![None, Some(0), None]), [1]);
}

#[test]
fn empty_filter_shows_every_seed_in_order() {
    let all = seeds(&["GitHub", "Mail", "GitLab"]);
    assert_eq!(filter_seeds(&all, ""), (vec![0, 1, 2], Some(0)));
    assert_eq!(filter_seeds(&[], ""), (vec![], None));
}

#[test]
fn filter_shows_the_seeds_that_match() {
    let all = seeds(&["Mail", "GitHub", "Bank", "GitLab"]);
    assert_eq!(filter_seeds(&all, "git"), (vec![1, 3], Some(0)));
    assert_eq!(filter_seeds(&all, "lab"), (vec![3], Some(0)));
    assert_eq!(filter_seeds(&all, "a").0.len(), 3);
    assert_eq!(filter_seeds(&all, "zzz"), (vec![], None));
    assert_eq!(filter_seeds(&[], "git"), (vec![], None));
}

#[test]
fn filter_shows_the_better_match_first() {
    let all = seeds(&["some_release", "xrxexlxexaxsxe", "release", "a_release", "Release", "none"]);
    let (displayed, selected) = filter_seeds(&all, "release");
    assert_eq!(selected, Some(0));
    let mut expected: Vec<(usize, isize)> = all
        .iter()
        .enumerate()
        .filter_map(|(index, seed)| {
            sublime_fuzzy::best_match("release", &seed.identifier).map(|found| (index, found.score()))
        })
        .collect();
    expected.sort_by(|(_, a), (_, b)| b.cmp(a));
    let expected: Vec<usize> = expected.into_iter().map(|(index, _)| index).collect();
    assert_eq!(displayed, expected);
    assert_eq!(displayed.len(), 5);
    assert_eq!(*displayed.last().unwrap(), 1);
}

#[test]
fn screen_lists_every_seed_at_first() {
    let screen = screen(&["A", "B", "C"]);
    assert_eq!(screen.displayed(), &[0, 1, 2]);
    assert_eq!(screen.selected_displayed(), Some(0));
    assert_eq!(screen.selected_seed_index(), Some(0));
    assert_eq!(screen.seed_at(2).identifier, "C");
    assert_eq!(screen.filter().value(), "");
    assert_eq!(screen.key(), &None);
    assert_eq!(screen.prev_vault_hash(), 42);
    let empty = self::screen(&[]);
    assert_eq!(empty.selected_displayed(), None);
    assert_eq!(empty.selected_seed_index(), None);
}

#[test]
fn arrows_move_the_selection() {
    let mut screen = screen(&["A", "B", "C"]);
    assert_eq!(screen.update(Key::Down, PLAIN), Ok(Request::Nothing));
    assert_eq!(screen.selected_displayed(), Some(1));
    screen.update(Key::Down, PLAIN).unwrap();
    screen.update(Key::Down, PLAIN).unwrap();
    assert_eq!(screen.selected_displayed(), Some(2));
    screen.update(Key::Up, PLAIN).unwrap();
    assert_eq!(screen.selected_displayed(), Some(1));
    assert_eq!(screen.move_selected(-5, false), Ok(()));
    assert_eq!(screen.selected_displayed(), Some(0));
    assert_eq!(identifiers(&screen), ["A", "B", "C"]);
    let mut empty = self::screen(&[]);
    assert_eq!(empty.update(Key::Down, ALT), Ok(Request::Nothing));
    assert_eq!(empty.selected_displayed(), None);
}

#[test]
fn alt_and_arrows_move_the_selected_seed() {
    let mut screen = screen(&["A", "B", "C"]);
    screen.update(Key::Down, ALT).unwrap();
    assert_eq!(identifiers(&screen), ["B", "A", "C"]);
    assert_eq!(screen.selected_displayed(), Some(1));
    screen.update(Key::Down, ALT).unwrap();
    assert_eq!(identifiers(&screen), ["B", "C", "A"]);
    screen.update(Key::Down, ALT).unwrap();
    assert_eq!(identifiers(&screen), ["B", "C", "A"]);
    screen.update(Key::Up, ALT).unwrap();
    assert_eq!(identifiers(&screen), ["B", "A", "C"]);
}

#[test]
fn typing_filters_the_list() {
    let mut screen = screen(&["Mail", "GitHub", "Bank", "GitLab"]);
    screen.update(Key::Down, PLAIN).unwrap();
    for c in "git".chars() {
        assert_eq!(screen.update(Key::Char(c), PLAIN), Ok(Request::Nothing));
    }
    assert_eq!(screen.filter().value(), "git");
    assert_eq!(screen.displayed(), &[1, 3]);
    assert_eq!(screen.selected_displayed(), Some(0));
    assert_eq!(screen.selected_seed_index(), Some(1));
    screen.update(Key::Down, PLAIN).unwrap();
    assert_eq!(screen.selected_seed_index(), Some(3));
    screen.update(Key::Left, PLAIN).unwrap();
    assert_eq!(screen.selected_seed_index(), Some(3));
    screen.update(Key::Char('z'), PLAIN).unwrap();
    assert_eq!(screen.displayed(), &[] as &[usize]);
    assert_eq!(screen.selected_displayed(), None);
    screen.update(Key::Backspace, CONTROL).unwrap();
    assert_eq!(screen.displayed(), &[1, 3]);
    screen.update(Key::Delete, CONTROL).unwrap();
    assert_eq!(screen.filter().value(), "");
    assert_eq!(screen.displayed(), &[0, 1, 2, 3]);
}

#[test]
fn characters_with_control_or_alt_do_not_reach_the_filter() {
    let mut screen = screen(&["A", "B"]);
    assert_eq!(screen.update(Key::Char('a'), CONTROL), Ok(Request::Nothing));
    assert_eq!(screen.update(Key::Char('x'), CONTROL), Ok(Request::Nothing));
    assert_eq!(screen.update(Key::Char('h'), ALT), Ok(Request::Nothing));
    assert_eq!(screen.update(Key::Char('r'), ALT), Ok(Request::Nothing));
    assert_eq!(screen.filter().value(), "");
    assert_eq!(screen.update(Key::Char('h'), CONTROL), Ok(Request::Help));
    assert_eq!(screen.update(Key::Char('h'), Modifiers { control: true, alt: true }), Ok(Request::Help));
    assert_eq!(screen.filter().value(), "");
    assert_eq!(identifiers(&screen), ["A", "B"]);
}

#[test]
fn removal_is_asked_for_and_then_done() {
    let mut screen = screen(&["A", "B", "C"]);
    screen.update(Key::Down, PLAIN).unwrap();
    assert_eq!(
        screen.update(Key::Char('r'), CONTROL),
        Ok(Request::ConfirmRemoval(
            1,
            "This will permanently remove seed 'B' from the vault. Continue?".to_string()
        ))
    );
    assert_eq!(identifiers(&screen), ["A", "B", "C"]);
    assert_eq!(screen.remove(1), Ok(()));
    assert_eq!(identifiers(&screen), ["A", "C"]);
    assert_eq!(screen.displayed(), &[0, 1]);
    assert_eq!(screen.selected_displayed(), Some(0));
    assert_eq!(screen.remove(2), Err(VaultError::SeedIndex(2)));
    assert_eq!(identifiers(&screen), ["A", "C"]);
    let mut empty = self::screen(&[]);
    assert_eq!(empty.update(Key::Char('r'), CONTROL), Ok(Request::Nothing));
}

#[test]
fn update_displayed_lists_anew() {
    let mut screen = screen(&["A", "B", "C"]);
    screen.update(Key::Down, PLAIN).unwrap();
    screen.update_displayed();
    assert_eq!(screen.displayed(), &[0, 1, 2]);
    assert_eq!(screen.selected_displayed(), Some(0));
}

#[test]
fn rows_show_the_seeds_that_are_listed() {
    let mut vault =
        Vault::with_pepper("vaults", "test".to_string(), "key", b"0123456789abcdefghij".to_vec(), false)
            .unwrap();
    vault.push(Seed {
        identifier: "GitHub".to_string(),
        length: 24,
        salt: u64::MAX,
        characters: Characters::all(),
        username: Some("octocat".to_string()),
    });
    vault.push(Seed {
        identifier: "Mail".to_string(),
        length: 0,
        salt: 0,
        characters: Characters::from_bits_truncate(6),
        username: None,
    });
    let mut screen = vault_view(vault, Some("key".to_string()), 0);
    assert_eq!(
        screen.rows(),
        [
            vec!["GitHub", "24", "18446744073709551615", "ULNSR", "octocat"],
            vec!["Mail", "0", "0", "-LN--", "None"],
        ]
    );
    screen.update(Key::Char('m'), PLAIN).unwrap();
    assert_eq!(screen.rows(), [vec!["Mail", "0", "0", "-LN--", "None"]]);
    assert_eq!(VaultView::row(&seed("A")), ["A", "16", "0", "ULNSR", "None"]);
    assert_eq!(screen.key(), &Some("key".to_string()));
}
