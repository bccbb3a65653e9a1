//! The screen that shows a vault: which seeds it lists, in which order, and
//! what the keys do.

use vstd::prelude::*;

use crate::input::{Key, Line, Modifiers, StringInput};
use crate::result::VaultError;
use crate::seed::Seed;
use crate::text::{decimal, decimal_string};
use crate::trusted::{best_match_score, fuzzy_score};
use crate::utility::{shift, shifted};
use crate::vault::{swapped, Vault, VaultState};
use vstd::string::StringExecFns;

verus! {

/// Whether the seed at `a` is listed before the seed at `b`: it has the
/// higher score, or the same score and the lower index.
pub open spec fn listed_before(scores: Seq<Option<isize>>, a: int, b: int) -> bool {
    scores[a]->0 > scores[b]->0 || (scores[a]->0 == scores[b]->0 && a < b)
}

/// Whether `order` lists the seeds that have a score, each once, the higher
/// score first, and of two with the same score the one of the lower index
/// first.
pub open spec fn ranked(scores: Seq<Option<isize>>, order: Seq<usize>) -> bool {
    &&& forall|k: int| 0 <= k < order.len() ==> #[trigger] order[k] < scores.len() && scores[order[k] as int] is Some
    &&& forall|i: int|
        0 <= i < scores.len() && (#[trigger] scores[i]) is Some ==> exists|k: int|
            0 <= k < order.len() && #[trigger] order[k] == i
    &&& forall|j: int, k: int|
        0 <= j < k < order.len() ==> listed_before(
            scores,
            #[trigger] order[j] as int,
            #[trigger] order[k] as int,
        )
}

/// The numbers from zero up to `n`, in order.
pub open spec fn counting(n: nat) -> Seq<usize> {
    Seq::new(n, |i: int| i as usize)
}

/// The score of each seed for a filter: how well its identifier matches.
pub open spec fn seed_scores(seeds: Seq<Seed>, filter: Seq<char>) -> Seq<Option<isize>> {
    Seq::new(seeds.len(), |i: int| fuzzy_score(filter, seeds[i].identifier@))
}

/// Whether `displayed` is what a filter shows of the seeds: all of them in
/// their order where the filter is empty; else those that match, the better
/// match first.
pub open spec fn filtered(seeds: Seq<Seed>, filter: Seq<char>, displayed: Seq<usize>) -> bool {
    if filter.len() == 0 {
        displayed == counting(seeds.len())
    } else {
        ranked(seed_scores(seeds, filter), displayed)
    }
}

/// There is one order only in which seeds with these scores are listed.
pub proof fn lemma_ranked_unique(scores: Seq<Option<isize>>, a: Seq<usize>, b: Seq<usize>)
    requires
        ranked(scores, a),
        ranked(scores, b),
    ensures
        a == b,
    decreases a.len(),
{
    if a.len() == 0 {
        if b.len() > 0 {
            let i = b[0] as int;
            assert(scores[i] is Some);
            let k = choose|k: int| 0 <= k < a.len() && #[trigger] a[k] == i;
        }
        assert(a =~= b);
    } else if b.len() == 0 {
        let i = a[0] as int;
        assert(scores[i] is Some);
        let k = choose|k: int| 0 <= k < b.len() && #[trigger] b[k] == i;
    } else {
        // The two orders begin with the same seed: each lists the first seed of
        // the other, and not before its own first.
        let x = a[0] as int;
        let y = b[0] as int;
        assert(scores[x] is Some && scores[y] is Some);
        let kx = choose|k: int| 0 <= k < b.len() && #[trigger] b[k] == x;
        let ky = choose|k: int| 0 <= k < a.len() && #[trigger] a[k] == y;
        if kx > 0 {
            assert(listed_before(scores, b[0] as int, b[kx] as int));
        }
        if ky > 0 {
            assert(listed_before(scores, a[0] as int, a[ky] as int));
        }
        assert(x == y);
        // Without that seed, the rest of each is an order of the other seeds.
        let rest = scores.update(x, None);
        let ra = a.drop_first();
        let rb = b.drop_first();
        lemma_ranked_rest(scores, a);
        lemma_ranked_rest(scores, b);
        lemma_ranked_unique(rest, ra, rb);
        assert(a =~= seq![a[0]] + ra);
        assert(b =~= seq![b[0]] + rb);
    }
}

/// An order without its first seed is the order of the other seeds.
proof fn lemma_ranked_rest(scores: Seq<Option<isize>>, order: Seq<usize>)
    requires
        ranked(scores, order),
        order.len() > 0,
    ensures
        ranked(scores.update(order[0] as int, None), order.drop_first()),
{
    let first = order[0] as int;
    let rest = scores.update(first, None);
    let tail = order.drop_first();
    assert forall|k: int| 0 <= k < tail.len() implies #[trigger] tail[k] < rest.len()
        && rest[tail[k] as int] is Some by {
        assert(tail[k] == order[k + 1]);
        assert(listed_before(scores, order[0] as int, order[k + 1] as int));
    }
    assert forall|i: int| 0 <= i < rest.len() && (#[trigger] rest[i]) is Some implies exists|k: int|
        0 <= k < tail.len() && #[trigger] tail[k] == i by {
        assert(scores[i] is Some);
        let k = choose|k: int| 0 <= k < order.len() && #[trigger] order[k] == i;
        assert(tail[k - 1] == i);
    }
    assert forall|j: int, k: int| 0 <= j < k < tail.len() implies listed_before(
        rest,
        #[trigger] tail[j] as int,
        #[trigger] tail[k] as int,
    ) by {
        assert(tail[j] == order[j + 1]);
        assert(tail[k] == order[k + 1]);
        assert(listed_before(scores, order[j + 1] as int, order[k + 1] as int));
        assert(listed_before(scores, order[0] as int, order[j + 1] as int));
        assert(listed_before(scores, order[0] as int, order[k + 1] as int));
    }
}

/// A seed without a score changes nothing in the order of those before it.
proof fn lemma_ranked_skip(scores: Seq<Option<isize>>, i: int, order: Seq<usize>)
    requires
        0 <= i < scores.len(),
        scores[i] is None,
        ranked(scores.take(i), order),
    ensures
        ranked(scores.take(i + 1), order),
{
    let seen = scores.take(i);
    let next = scores.take(i + 1);
    assert forall|k: int| 0 <= k < order.len() implies #[trigger] order[k] < next.len()
        && next[order[k] as int] is Some by {
        assert(seen[order[k] as int] is Some);
    }
    assert forall|s: int| 0 <= s < next.len() && (#[trigger] next[s]) is Some implies exists|k: int|
        0 <= k < order.len() && #[trigger] order[k] == s by {
        assert(seen[s] is Some);
    }
    assert forall|j: int, k: int| 0 <= j < k < order.len() implies listed_before(
        next,
        #[trigger] order[j] as int,
        #[trigger] order[k] as int,
    ) by {
        assert(listed_before(seen, order[j] as int, order[k] as int));
    }
}

/// A seed with a score goes into the order of those before it behind the
/// last that scores no less.
proof fn lemma_ranked_insert(scores: Seq<Option<isize>>, i: usize, order: Seq<usize>, at: int)
    requires
        0 <= i < scores.len(),
        scores[i as int] is Some,
        ranked(scores.take(i as int), order),
        0 <= at <= order.len(),
        forall|k: int|
            at <= k < order.len() ==> scores[(#[trigger] order[k]) as int]->0 < scores[i as int]->0,
        at > 0 ==> scores[order[at - 1] as int]->0 >= scores[i as int]->0,
    ensures
        ranked(scores.take(i + 1), order.insert(at, i)),
{
    let seen = scores.take(i as int);
    let next = scores.take(i + 1);
    let after = order.insert(at, i);
    assert forall|k: int| 0 <= k < order.len() implies (#[trigger] order[k]) < i && scores[order[k] as int]
        == seen[order[k] as int] && seen[order[k] as int] is Some by {}
    assert forall|k: int| 0 <= k < after.len() implies #[trigger] after[k] < next.len()
        && next[after[k] as int] is Some by {
        if k < at {
            assert(after[k] == order[k]);
        } else if k > at {
            assert(after[k] == order[k - 1]);
        }
    }
    assert forall|s: int| 0 <= s < next.len() && (#[trigger] next[s]) is Some implies exists|k: int|
        0 <= k < after.len() && #[trigger] after[k] == s by {
        if s == i {
            assert(after[at] == s);
        } else {
            assert(seen[s] is Some);
            let k = choose|k: int| 0 <= k < order.len() && #[trigger] order[k] == s;
            if k < at {
                assert(after[k] == s);
            } else {
                assert(after[k + 1] == s);
            }
        }
    }
    assert forall|j: int, k: int| 0 <= j < k < after.len() implies listed_before(
        next,
        #[trigger] after[j] as int,
        #[trigger] after[k] as int,
    ) by {
        let oj = if j < at {
            j
        } else {
            j - 1
        };
        let ok = if k < at {
            k
        } else {
            k - 1
        };
        if j != at && k != at {
            assert(after[j] == order[oj] && after[k] == order[ok]);
            assert(listed_before(seen, order[oj] as int, order[ok] as int));
        } else if j == at {
            assert(after[k] == order[ok]);
            assert(order[ok] < i);
        } else {
            assert(after[j] == order[oj]);
            assert(order[oj] < i);
            if oj < at - 1 {
                assert(listed_before(seen, order[oj] as int, order[at - 1] as int));
            }
        }
    }
}

/// The seeds that have a score, the higher score first, and of two with the
/// same score the one of the lower index first.
pub fn rank(scores: &Vec<Option<isize>>) -> (order: Vec<usize>)
    ensures
        ranked(scores@, order@),
{
    let mut order: Vec<usize> = Vec::new();
    let mut i: usize = 0;
    while i < scores.len()
        invariant
            i <= scores.len(),
            ranked(scores@.take(i as int), order@),
        decreases scores.len() - i,
    {
        match scores[i] {
            Some(score) => {
                let at = insertion_point(scores, &order, i, score);
                proof {
                    lemma_ranked_insert(scores@, i, order@, at as int);
                }
                order.insert(at, i);
            },
            None => {
                proof {
                    lemma_ranked_skip(scores@, i as int, order@);
                }
            },
        }
        i += 1;
    }
    assert(scores@.take(scores.len() as int) =~= scores@);
    order
}

/// Where a seed with this score goes into the order of those before it:
/// behind the last that scores no less.
fn insertion_point(scores: &Vec<Option<isize>>, order: &Vec<usize>, i: usize, score: isize) -> (at:
    usize)
    requires
        i < scores.len(),
        scores[i as int] == Some(score),
        ranked(scores@.take(i as int), order@),
    ensures
        at <= order.len(),
        forall|k: int| at <= k < order.len() ==> scores[(#[trigger] order[k]) as int]->0 < score,
        at > 0 ==> scores[order[at - 1] as int]->0 >= score,
{
    let ghost seen = scores@.take(i as int);
    let mut at: usize = order.len();
    loop
        invariant_except_break
            at <= order.len(),
            i < scores.len(),
            seen == scores@.take(i as int),
            ranked(seen, order@),
            forall|k: int| at <= k < order.len() ==> scores[(#[trigger] order[k]) as int]->0 < score,
        ensures
            at <= order.len(),
            forall|k: int| at <= k < order.len() ==> scores[(#[trigger] order[k]) as int]->0 < score,
            at > 0 ==> scores[order[at - 1] as int]->0 >= score,
        decreases at,
    {
        if at == 0 {
            break ;
        }
        assert(seen[order[at - 1] as int] is Some);
        match scores[order[at - 1]] {
            Some(other) => {
                if other >= score {
                    break ;
                }
            },
            None => {},
        }
        at -= 1;
    }
    at
}

/// The seeds that a filter shows, and the row that is selected at first.
/// An empty filter shows all the seeds in their order. Any other shows those
/// whose identifier matches it, the better match first, and of two that match
/// as well the one of the lower index first. The first row is selected, if
/// there is one.
pub fn filter_seeds(seeds: &[Seed], filter: &str) -> (r: (Vec<usize>, Option<usize>))
    ensures
        filtered(seeds@, filter@, r.0@),
        forall|k: int| 0 <= k < r.0.len() ==> #[trigger] r.0[k] < seeds.len(),
        r.1 == if r.0.len() == 0 {
            None
        } else {
            Some(0usize)
        },
{
    let mut displayed: Vec<usize> = Vec::new();
    if filter.is_empty() {
        let mut i: usize = 0;
        while i < seeds.len()
            invariant
                i <= seeds.len(),
                displayed@ == counting(i as nat),
            decreases seeds.len() - i,
        {
            displayed.push(i);
            i += 1;
            assert(displayed@ =~= counting(i as nat));
        }
    } else {
        let mut scores: Vec<Option<isize>> = Vec::new();
        let mut i: usize = 0;
        while i < seeds.len()
            invariant
                i <= seeds.len(),
                scores@ == seed_scores(seeds@, filter@).take(i as int),
            decreases seeds.len() - i,
        {
            scores.push(best_match_score(filter, seeds[i].identifier.as_str()));
            i += 1;
            assert(scores@ =~= seed_scores(seeds@, filter@).take(i as int));
        }
        assert(seed_scores(seeds@, filter@).take(seeds.len() as int) =~= seed_scores(
            seeds@,
            filter@,
        ));
        displayed = rank(&scores);
    }
    let default_row = if displayed.len() == 0 { None } else { Some(0) };
    (displayed, default_row)
}

/// What the screen asks to be done after a key, and cannot do itself.
#[derive(Debug, PartialEq, Eq)]
pub enum Request {
    /// Nothing.
    Nothing,
    /// The keys are to be explained.
    Help,
    /// The user is to be asked, in these words, whether the seed at this index
    /// is to be removed. If the answer is yes, [`VaultView::remove`] removes it.
    ConfirmRemoval(usize, String),
}

/// What the screen of a vault is, to a contract.
pub struct Screen {
    /// The vault.
    pub vault: VaultState,
    /// The key, if the user has given it.
    pub key: Option<Seq<char>>,
    /// The filter that the user types.
    pub filter: Line,
    /// The indices of the seeds that are listed, in the order of the list.
    pub displayed: Seq<usize>,
    /// The row of the list that is selected.
    pub selected: Option<usize>,
    /// The hash of the vault as it was when the screen was made.
    pub vault_hash: u64,
}

/// The row that is selected at first in a list of so many rows.
pub open spec fn default_row(rows: nat) -> Option<usize> {
    if rows == 0 {
        None
    } else {
        Some(0usize)
    }
}

/// What the list shows of a seed, column by column: its identifier, its
/// length, its salt, its classes, and its user name or `None`.
pub open spec fn seed_row(seed: Seed) -> Seq<Seq<char>> {
    seq![
        seed.identifier@,
        decimal(seed.length as nat),
        decimal(seed.salt as nat),
        seed.characters.display(),
        match seed.username {
            Some(name) => name@,
            None => "None"@,
        },
    ]
}

/// What each of the strings holds.
pub open spec fn texts(strings: Seq<String>) -> Seq<Seq<char>> {
    Seq::new(strings.len(), |i: int| strings[i]@)
}

/// The words in which the user is asked whether a seed is to be removed.
pub open spec fn removal_question(identifier: Seq<char>) -> Seq<char> {
    "This will permanently remove seed '"@ + identifier + "' from the vault. Continue?"@
}

impl Screen {
    /// Whether every row of the list shows a seed of the vault, and the
    /// selected row is a row of the list. It is so when the screen is made, and
    /// stays so.
    pub open spec fn in_bounds(self) -> bool {
        &&& forall|k: int|
            0 <= k < self.displayed.len() ==> #[trigger] self.displayed[k] < self.vault.seeds.len()
        &&& self.selected matches Some(row) ==> row < self.displayed.len()
    }

    /// The index of the selected seed.
    pub open spec fn selected_seed(self) -> Option<usize> {
        match self.selected {
            Some(row) => Some(self.displayed[row as int]),
            None => None,
        }
    }

    /// The screen after the selection has moved by `delta` rows, and the
    /// selected seed with it where `move_content` holds: then the seed changes
    /// places with the seed of the row that the selection moves to.
    pub open spec fn after_move(self, delta: int, move_content: bool) -> Screen {
        match self.selected {
            Some(row) => {
                let to = shifted(row as int, delta, self.displayed.len() as int);
                Screen {
                    selected: Some(to as usize),
                    vault: if move_content {
                        VaultState {
                            seeds: swapped(
                                self.vault.seeds,
                                self.displayed[row as int] as int,
                                self.displayed[to] as int,
                            ),
                            ..self.vault
                        }
                    } else {
                        self.vault
                    },
                    ..self
                }
            },
            None => self,
        }
    }

    /// Whether `after` is this screen with a filter that has changed to
    /// `filter`: it lists what the filter shows, and its first row is selected.
    pub open spec fn refreshed(self, filter: Line, after: Screen) -> bool {
        &&& after.vault == self.vault
        &&& after.key == self.key
        &&& after.vault_hash == self.vault_hash
        &&& after.filter == filter
        &&& filtered(self.vault.seeds, filter.value, after.displayed)
        &&& after.selected == default_row(after.displayed.len())
    }
}

/// The screen that shows a vault.
pub struct VaultView {
    /// The vault.
    vault: Vault,
    /// The key that passwords are derived with. Where there is none, the user
    /// is asked for it when a password is wanted.
    key: Option<String>,
    /// The filter that the user types.
    filter: StringInput,
    /// The indices of the seeds that are listed, in the order of the list.
    displayed: Vec<usize>,
    /// The row of the list that is selected.
    selected: Option<usize>,
    /// The hash of the vault as it was when the screen was made.
    prev_vault_hash: u64,
}

/// The text of the key.
pub open spec fn key_view(key: Option<String>) -> Option<Seq<char>> {
    match key {
        Some(text) => Some(text@),
        None => None,
    }
}

impl View for VaultView {
    type V = Screen;

    closed spec fn view(&self) -> Screen {
        Screen {
            vault: self.vault@,
            key: key_view(self.key),
            filter: self.filter@,
            displayed: self.displayed@,
            selected: self.selected,
            vault_hash: self.prev_vault_hash,
        }
    }
}

/// The screen of a vault as it is at first: the filter is empty, all the
/// seeds are listed in their order, and the first row is selected.
pub fn vault_view(vault: Vault, key: Option<String>, vault_hash: u64) -> (screen: VaultView)
    ensures
        screen@.vault == vault@,
        screen@.key == key_view(key),
        screen@.filter == (Line { value: Seq::empty(), caret: 0, hidden: false }),
        screen@.displayed == counting(vault@.seeds.len()),
        screen@.selected == default_row(vault@.seeds.len()),
        screen@.vault_hash == vault_hash,
        screen@.in_bounds(),
{
    proof {
        reveal_strlit("");
    }
    let (displayed, selected) = filter_seeds(vault.seeds(), "");
    VaultView {
        vault,
        key,
        filter: StringInput::default(),
        displayed,
        selected,
        prev_vault_hash: vault_hash,
    }
}

impl VaultView {
    /// The vault.
    pub fn vault(&self) -> (vault: &Vault)
        ensures
            vault@ == self@.vault,
    {
        &self.vault
    }

    /// The key, if the user has given it.
    pub fn key(&self) -> (key: &Option<String>)
        ensures
            key_view(*key) == self@.key,
    {
        &self.key
    }

    /// The filter that the user types.
    pub fn filter(&self) -> (filter: &StringInput)
        ensures
            filter@ == self@.filter,
    {
        &self.filter
    }

    /// The indices of the seeds that are listed, in the order of the list.
    pub fn displayed(&self) -> (displayed: &Vec<usize>)
        ensures
            displayed@ == self@.displayed,
    {
        &self.displayed
    }

    /// The hash of the vault as it was when the screen was made.
    pub fn prev_vault_hash(&self) -> (hash: u64)
        ensures
            hash == self@.vault_hash,
    {
        self.prev_vault_hash
    }

    /// The seed at this index of the vault.
    pub fn seed_at(&self, index: usize) -> (seed: &Seed)
        requires
            index < self@.vault.seeds.len(),
        ensures
            *seed == self@.vault.seeds[index as int],
    {
        &self.vault.seeds()[index]
    }

    /// The row of the list that is selected.
    pub fn selected_displayed(&self) -> (row: Option<usize>)
        ensures
            row == self@.selected,
    {
        self.selected
    }

    /// The index of the selected seed.
    pub fn selected_seed_index(&self) -> (index: Option<usize>)
        requires
            self@.in_bounds(),
        ensures
            index == self@.selected_seed(),
            index matches Some(i) ==> i < self@.vault.seeds.len(),
    {
        match self.selected {
            Some(row) => Some(self.displayed[row]),
            None => None,
        }
    }

    /// What the list shows of a seed, column by column.
    pub fn row(seed: &Seed) -> (row: Vec<String>)
        ensures
            texts(row@) == seed_row(*seed),
    {
        let mut row: Vec<String> = Vec::new();
        row.push(seed.identifier.clone());
        row.push(decimal_string(false, seed.length as u64));
        row.push(decimal_string(false, seed.salt));
        row.push(seed.characters.to_string());
        row.push(
            match &seed.username {
                Some(name) => name.clone(),
                None => "None".to_owned(),
            },
        );
        assert(texts(row@) =~= seed_row(*seed));
        row
    }

    /// What the list shows, row by row.
    pub fn rows(&self) -> (rows: Vec<Vec<String>>)
        requires
            self@.in_bounds(),
        ensures
            rows.len() == self@.displayed.len(),
            forall|k: int|
                0 <= k < rows.len() ==> texts(#[trigger] rows[k]@) == seed_row(
                    self@.vault.seeds[self@.displayed[k] as int],
                ),
    {
        let mut rows: Vec<Vec<String>> = Vec::new();
        let mut k: usize = 0;
        while k < self.displayed.len()
            invariant
                k <= self.displayed.len(),
                self@.in_bounds(),
                rows.len() == k,
                forall|j: int|
                    0 <= j < k ==> texts(#[trigger] rows[j]@) == seed_row(
                        self@.vault.seeds[self@.displayed[j] as int],
                    ),
            decreases self.displayed.len() - k,
        {
            assert(self@.displayed[k as int] < self@.vault.seeds.len());
            rows.push(VaultView::row(self.seed_at(self.displayed[k])));
            k += 1;
        }
        rows
    }

    /// Lists anew what the filter shows, and selects the first row.
    pub fn update_displayed(&mut self)
        ensures
            old(self)@.refreshed(old(self)@.filter, final(self)@),
            final(self)@.in_bounds(),
    {
        let filter = self.filter.value();
        let (displayed, selected) = filter_seeds(self.vault.seeds(), filter.as_str());
        self.displayed = displayed;
        self.selected = selected;
    }

    /// Moves the selection by `delta` rows, as far as the list goes. Where
    /// `move_content` holds, the selected seed moves with it: it changes places
    /// in the vault with the seed of the row that the selection moves to.
    pub fn move_selected(&mut self, delta: isize, move_content: bool) -> (r: Result<(), VaultError>)
        requires
            old(self)@.in_bounds(),
        ensures
            r is Ok,
            final(self)@ == old(self)@.after_move(delta as int, move_content),
            final(self)@.in_bounds(),
    {
        match self.selected {
            Some(prev) => {
                let new = shift(prev, delta, self.displayed.len());
                self.selected = Some(new);
                if move_content {
                    let a = self.displayed[prev];
                    let b = self.displayed[new];
                    match self.vault.swap(a, b) {
                        Ok(()) => {},
                        Err(e) => {
                            return Err(e);
                        },
                    }
                }
                Ok(())
            },
            None => Ok(()),
        }
    }

    /// Removes the seed at this index from the vault, lists anew what the
    /// filter shows, and selects the first row. Where the vault has no seed at
    /// this index, nothing changes.
    pub fn remove(&mut self, seed_index: usize) -> (r: Result<(), VaultError>)
        ensures
            r.is_ok() == (seed_index < old(self)@.vault.seeds.len()),
            r is Ok ==> (Screen {
                vault: VaultState {
                    seeds: old(self)@.vault.seeds.remove(seed_index as int),
                    ..old(self)@.vault
                },
                ..old(self)@
            }).refreshed(old(self)@.filter, final(self)@),
            r matches Err(e) ==> e == VaultError::SeedIndex(seed_index) && final(self)@ == old(
                self,
            )@,
            r is Ok || old(self)@.in_bounds() ==> final(self)@.in_bounds(),
    {
        if seed_index >= self.vault.seeds().len() {
            return Err(VaultError::SeedIndex(seed_index));
        }
        let removed = self.vault.remove(seed_index);
        self.update_displayed();
        removed
    }

    /// The words in which the user is asked whether a seed is to be removed.
    fn question(identifier: &str) -> (question: String)
        ensures
            question@ == removal_question(identifier@),
    {
        let mut question = "This will permanently remove seed '".to_owned();
        question.append(identifier);
        question.append("' from the vault. Continue?");
        question
    }

    /// Handles a key, and says what is to be done that the screen cannot do
    /// itself.
    ///
    /// * Up and down move the selection by one row; with alt, the selected
    ///   seed moves with it.
    /// * Control and `h` ask for help.
    /// * Control and `r` ask for the selected seed to be removed, after the
    ///   user has said yes.
    /// * Any other character with control or alt does nothing.
    /// * Every other key goes to the filter. If it changes the filter, what
    ///   the filter shows is listed anew, and the first row is selected.
    pub fn update(&mut self, key: Key, modifiers: Modifiers) -> (r: Result<Request, VaultError>)
        requires
            key != Key::Enter,
            old(self)@.in_bounds(),
        ensures
            final(self)@.in_bounds(),
            r is Ok,
            match key {
                Key::Up => r == Ok::<Request, VaultError>(Request::Nothing) && final(self)@ == old(
                    self,
                )@.after_move(-1, modifiers.alt),
                Key::Down => r == Ok::<Request, VaultError>(Request::Nothing) && final(self)@
                    == old(self)@.after_move(1, modifiers.alt),
                Key::Char(c) if modifiers.control || modifiers.alt => {
                    &&& final(self)@ == old(self)@
                    &&& r matches Ok(request) && match request {
                        Request::Nothing => !modifiers.control || (c != 'h' && (c != 'r' || old(
                            self,
                        )@.selected is None)),
                        Request::Help => modifiers.control && c == 'h',
                        Request::ConfirmRemoval(index, question) => {
                            &&& modifiers.control && c == 'r'
                            &&& old(self)@.selected_seed() == Some(index)
                            &&& question@ == removal_question(
                                old(self)@.vault.seeds[index as int].identifier@,
                            )
                        },
                    }
                },
                _ => {
                    &&& r == Ok::<Request, VaultError>(Request::Nothing)
                    &&& if old(self)@.filter.changed_by(key) {
                        old(self)@.refreshed(
                            old(self)@.filter.after_key(key, modifiers.control),
                            final(self)@,
                        )
                    } else {
                        final(self)@ == (Screen {
                            filter: old(self)@.filter.after_key(key, modifiers.control),
                            ..old(self)@
                        })
                    }
                },
            },
    {
        match key {
            Key::Up => {
                let moved = self.move_selected(-1, modifiers.alt);
                Ok(Request::Nothing)
            },
            Key::Down => {
                let moved = self.move_selected(1, modifiers.alt);
                Ok(Request::Nothing)
            },
            Key::Char(c) if modifiers.control || modifiers.alt => {
                if modifiers.control && c == 'h' {
                    Ok(Request::Help)
                } else if modifiers.control && c == 'r' {
                    match self.selected_seed_index() {
                        Some(index) => {
                            let seed = self.seed_at(index);
                            Ok(
                                Request::ConfirmRemoval(
                                    index,
                                    VaultView::question(seed.identifier.as_str()),
                                ),
                            )
                        },
                        None => Ok(Request::Nothing),
                    }
                } else {
                    Ok(Request::Nothing)
                }
            },
            _ => {
                if self.filter.key_down(key, modifiers) {
                    self.update_displayed();
                }
                Ok(Request::Nothing)
            },
        }
    }
}

} // verus!
