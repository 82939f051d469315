//! The winners of one raffle round for one collection: a list of token ids
//! and an index of where each stands in the list.
use vstd::prelude::*;

verus! {

/// Where a winner stands in the list of winners.
#[derive(Clone, Debug, PartialEq, Eq)]
pub struct WinnerIndex {
    pub token_id: String,
    pub index: u32,
}

/// The winners of a round that have not redeemed yet, and the index that
/// finds them.
#[derive(Clone, Debug, PartialEq, Eq)]
pub struct Reservoir {
    /// The winners, in no meaningful order.
    pub winners: Vec<String>,
    /// For each winner, its place in `winners`.
    pub map: Vec<WinnerIndex>,
}

/// The token ids of a list.
pub open spec fn ids_of(list: Seq<String>) -> Seq<Seq<char>> {
    Seq::new(list.len(), |i: int| list[i]@)
}

/// Whether a token id is in a list.
pub open spec fn has_token(ids: Seq<Seq<char>>, token: Seq<char>) -> bool {
    exists|i: int| 0 <= i < ids.len() && #[trigger] ids[i] == token
}

/// Whether the token ids of a list differ from each other.
pub open spec fn distinct(ids: Seq<Seq<char>>) -> bool {
    forall|i: int, j: int| 0 <= i < j < ids.len() ==> #[trigger] ids[i] != #[trigger] ids[j]
}

/// The place that the index gives for a token id, if it gives one.
pub open spec fn index_of(map: Seq<WinnerIndex>, token: Seq<char>) -> Option<u32>
    decreases map.len(),
{
    if map.len() == 0 {
        None
    } else if map[0].token_id@ == token {
        Some(map[0].index)
    } else {
        index_of(map.drop_first(), token)
    }
}

/// The entry of an index of `m` entries that stands at `x` after the entry at
/// `k` was taken out and the last one moved into its place.
pub open spec fn moved_from(x: int, k: int, m: int) -> int {
    if x == k {
        m - 1
    } else {
        x
    }
}

/// Whether the index has an entry for a place.
pub open spec fn has_entry(map: Seq<WinnerIndex>, place: int) -> bool {
    exists|k: int| 0 <= k < map.len() && (#[trigger] map[k]).index == place
}

/// A list without the item at `i`, the last item moved into its place.
pub open spec fn swap_removed<T>(list: Seq<T>, i: int) -> Seq<T> {
    list.update(i, list.last()).drop_last()
}

impl Reservoir {
    /// The token ids of the winners.
    pub open spec fn ids(&self) -> Seq<Seq<char>> {
        ids_of(self.winners@)
    }

    /// The invariant of the reservoir: the index has one entry for each
    /// winner and no other, every entry gives the place at which its token
    /// stands, and no token stands at two places.
    pub open spec fn wf(&self) -> bool {
        &&& self.winners@.len() == self.map@.len()
        &&& self.winners@.len() <= u32::MAX
        &&& forall|k: int|
            0 <= k < self.map@.len() ==> (#[trigger] self.map@[k]).index < self.winners@.len()
                && self.winners@[self.map@[k].index as int]@ == self.map@[k].token_id@
        &&& forall|i: int| 0 <= i < self.winners@.len() ==> #[trigger] has_entry(self.map@, i)
        &&& forall|k: int, l: int|
            0 <= k < l < self.map@.len() ==> (#[trigger] self.map@[k]).token_id@ != (
            #[trigger] self.map@[l]).token_id@
    }

    /// A reservoir without winners.
    pub fn new() -> (reservoir: Reservoir)
        ensures
            reservoir.wf(),
            reservoir.winners@.len() == 0,
    {
        Reservoir { winners: Vec::new(), map: Vec::new() }
    }

    /// The number of winners that have not redeemed.
    pub fn count(&self) -> (n: u32)
        requires
            self.wf(),
        ensures
            n == self.winners@.len(),
    {
        self.winners.len() as u32
    }

    /// Where in the index the entry of a token is.
    fn entry_of(&self, token_id: &String) -> (found: Option<usize>)
        ensures
            match found {
                Some(k) => k < self.map@.len() && self.map@[k as int].token_id@ == token_id@
                    && index_of(self.map@, token_id@) == Some(self.map@[k as int].index)
                    && forall|j: int| 0 <= j < k ==> self.map@[j].token_id@ != token_id@,
                None => index_of(self.map@, token_id@).is_none() && forall|j: int|
                    0 <= j < self.map@.len() ==> self.map@[j].token_id@ != token_id@,
            },
    {
        let mut k: usize = 0;
        while k < self.map.len()
            invariant
                k <= self.map.len(),
                forall|j: int| 0 <= j < k ==> self.map@[j].token_id@ != token_id@,
            decreases self.map.len() - k,
        {
            if self.map[k].token_id == *token_id {
                proof {
                    lemma_index_of(self.map@, token_id@);
                }
                return Some(k);
            }
            k += 1;
        }
        proof {
            lemma_index_of(self.map@, token_id@);
        }
        None
    }

    /// The place of a winner in the list, if the token is a winner that has
    /// not redeemed.
    pub fn lookup(&self, token_id: &String) -> (place: Option<u32>)
        requires
            self.wf(),
        ensures
            place == index_of(self.map@, token_id@),
            place.is_some() == has_token(self.ids(), token_id@),
            place matches Some(i) ==> i < self.winners@.len() && self.winners@[i as int]@
                == token_id@,
    {
        proof {
            lemma_index_finds_winners(*self, token_id@);
        }
        match self.entry_of(token_id) {
            Some(k) => Some(self.map[k].index),
            None => None,
        }
    }

    /// Adds a winner. The token must not be a winner already, and there must
    /// be room for it.
    pub fn insert(&mut self, token_id: String)
        requires
            old(self).wf(),
            !has_token(old(self).ids(), token_id@),
            old(self).winners@.len() < u32::MAX,
        ensures
            final(self).wf(),
            final(self).winners@ == old(self).winners@.push(token_id),
            index_of(final(self).map@, token_id@) == Some(old(self).winners@.len() as u32),
    {
        let index = self.winners.len() as u32;
        let ghost before = *self;
        proof {
            lemma_index_finds_winners(before, token_id@);
        }
        self.map.push(WinnerIndex { token_id: token_id.clone(), index });
        self.winners.push(token_id);
        proof {
            assert forall|k: int| 0 <= k < self.map@.len() implies (#[trigger] self.map@[k]).index
                < self.winners@.len() && self.winners@[self.map@[k].index as int]@
                == self.map@[k].token_id@ by {
                if k < before.map@.len() {
                    assert(self.map@[k] == before.map@[k]);
                }
            }
            assert forall|i: int| 0 <= i < self.winners@.len() implies #[trigger] has_entry(
                self.map@,
                i,
            ) by {
                if i < before.winners@.len() {
                    assert(has_entry(before.map@, i));
                    let k = choose|k: int|
                        0 <= k < before.map@.len() && (#[trigger] before.map@[k]).index == i;
                    assert(self.map@[k] == before.map@[k]);
                } else {
                    assert(self.map@[before.map@.len() as int].index == i);
                }
            }
            assert forall|k: int, l: int| 0 <= k < l < self.map@.len() implies (
            #[trigger] self.map@[k]).token_id@ != (#[trigger] self.map@[l]).token_id@ by {
                assert(self.map@[k] == before.map@[k]);
                if l < before.map@.len() {
                    assert(self.map@[l] == before.map@[l]);
                } else {
                    let i = before.map@[k].index as int;
                    assert(before.ids()[i] == before.map@[k].token_id@);
                }
            }
            lemma_index_of(self.map@, token_id@);
            assert(self.map@[before.map@.len() as int].token_id@ == token_id@);
            if let Some(found) = index_of(self.map@, token_id@) {
                let k = choose|k: int|
                    0 <= k < self.map@.len() && self.map@[k].token_id@ == token_id@
                        && self.map@[k].index == found;
                if k < before.map@.len() {
                    assert(self.map@[k].token_id@ != self.map@[before.map@.len() as int].token_id@);
                }
            }
        }
    }

    /// Takes a winner out, once: the last winner of the list moves into its
    /// place. Returns whether the token was a winner; a token that is none
    /// changes nothing.
    pub fn consume(&mut self, token_id: &String) -> (redeemed: bool)
        requires
            old(self).wf(),
        ensures
            final(self).wf(),
            redeemed == has_token(old(self).ids(), token_id@),
            match index_of(old(self).map@, token_id@) {
                Some(i) => redeemed && final(self).winners@ == swap_removed(
                    old(self).winners@,
                    i as int,
                ),
                None => !redeemed && *final(self) == *old(self),
            },
            redeemed ==> final(self).winners@.len() == old(self).winners@.len() - 1,
            !has_token(final(self).ids(), token_id@),
            forall|other: Seq<char>|
                other != token_id@ ==> has_token(final(self).ids(), other) == has_token(
                    old(self).ids(),
                    other,
                ),
    {
        let ghost before = *self;
        proof {
            lemma_index_finds_winners(before, token_id@);
            lemma_winners_distinct(before);
        }
        let k = match self.entry_of(token_id) {
            Some(k) => k,
            None => {
                return false;
            },
        };
        let idx = self.map[k].index;
        let last_idx = (self.winners.len() - 1) as u32;
        self.map.swap_remove(k);
        if idx != last_idx {
            let last_wnr = self.winners[last_idx as usize].clone();
            let ghost mid = *self;
            // find the entry of the last winner and point it at the freed place
            let mut j: usize = 0;
            while j < self.map.len()
                invariant
                    j <= self.map@.len(),
                    self.map@.len() == mid.map@.len(),
                    self.winners@ == mid.winners@,
                    idx < last_idx < mid.winners@.len(),
                    last_wnr@ == mid.winners@[last_idx as int]@,
                    forall|x: int|
                        j <= x < self.map@.len() ==> self.map@[x] == mid.map@[x],
                    forall|x: int|
                        0 <= x < j ==> (#[trigger] self.map@[x]).token_id == mid.map@[x].token_id
                            && self.map@[x].index == (if mid.map@[x].token_id@ == last_wnr@ {
                            idx
                        } else {
                            mid.map@[x].index
                        }),
                decreases self.map.len() - j,
            {
                if self.map[j].token_id == last_wnr {
                    self.map[j].index = idx;
                }
                j += 1;
            }
            self.winners[idx as usize] = last_wnr;
        }
        self.winners.pop();
        proof {
            let n = before.winners@.len() as int;
            let i = idx as int;
            assert(self.winners@ =~= swap_removed(before.winners@, i));
            // every entry left is an entry of before, other than the one taken out
            assert forall|x: int| 0 <= x < self.map@.len() implies ({
                let y = if x == k {
                    before.map@.len() - 1
                } else {
                    x
                };
                &&& y != k as int || k as int == before.map@.len() - 1
                &&& (#[trigger] self.map@[x]).token_id == before.map@[y].token_id
                &&& self.map@[x].index == (if before.map@[y].index == n - 1 {
                    idx
                } else {
                    before.map@[y].index
                })
            }) by {
                let y = if x == k {
                    before.map@.len() - 1
                } else {
                    x
                };
                if i != n - 1 {
                    // the entry at the last place holds the last winner, and no other does
                    if before.map@[y].index == n - 1 {
                        assert(before.map@[y].token_id@ == before.winners@[n - 1]@);
                    } else {
                        assert(before.winners@[before.map@[y].index as int]@
                            == before.map@[y].token_id@);
                        assert(before.ids()[before.map@[y].index as int]
                            == before.map@[y].token_id@);
                        assert(before.ids()[n - 1] == before.winners@[n - 1]@);
                    }
                } else {
                    // the entry taken out was the only one at the last place
                    if before.map@[y].index == n - 1 && y != k as int {
                        assert(before.ids()[n - 1] == before.map@[y].token_id@);
                        assert(before.ids()[n - 1] == before.map@[k as int].token_id@);
                        if y < k as int {
                            assert(before.map@[y].token_id@ != before.map@[k as int].token_id@);
                        } else {
                            assert(before.map@[k as int].token_id@ != before.map@[y].token_id@);
                        }
                    }
                }
            }
            lemma_consumed(before, *self, k as int, token_id@);
        }
        true
    }
}

/// The index gives a token the place of its first entry.
pub proof fn lemma_index_of(map: Seq<WinnerIndex>, token: Seq<char>)
    ensures
        match index_of(map, token) {
            Some(i) => exists|k: int|
                0 <= k < map.len() && (#[trigger] map[k]).token_id@ == token && map[k].index == i
                    && forall|j: int| 0 <= j < k ==> map[j].token_id@ != token,
            None => forall|k: int| 0 <= k < map.len() ==> map[k].token_id@ != token,
        },
    decreases map.len(),
{
    if map.len() > 0 {
        if map[0].token_id@ == token {
            assert(map[0].token_id@ == token && map[0].index == map[0].index);
        } else {
            let rest = map.drop_first();
            lemma_index_of(rest, token);
            match index_of(rest, token) {
                Some(i) => {
                    let k = choose|k: int|
                        0 <= k < rest.len() && (#[trigger] rest[k]).token_id@ == token
                            && rest[k].index == i && forall|j: int|
                            0 <= j < k ==> rest[j].token_id@ != token;
                    assert(map[k + 1] == rest[k]);
                    assert forall|j: int| 0 <= j < k + 1 implies map[j].token_id@ != token by {
                        if j > 0 {
                            assert(rest[j - 1].token_id@ != token);
                        }
                    }
                },
                None => {
                    assert forall|k: int| 0 <= k < map.len() implies map[k].token_id@ != token by {
                        if k > 0 {
                            assert(rest[k - 1].token_id@ != token);
                        }
                    }
                },
            }
        }
    }
}

/// The index finds exactly the winners: a token has a place if and only if
/// it is in the list, and then it stands at that place.
pub proof fn lemma_index_finds_winners(r: Reservoir, token: Seq<char>)
    requires
        r.wf(),
    ensures
        index_of(r.map@, token).is_some() == has_token(r.ids(), token),
        index_of(r.map@, token) matches Some(i) ==> i < r.winners@.len() && r.winners@[i as int]@
            == token,
{
    lemma_index_of(r.map@, token);
    match index_of(r.map@, token) {
        Some(i) => {
            assert(r.ids()[i as int] == token);
        },
        None => {
            if has_token(r.ids(), token) {
                let i = choose|i: int| 0 <= i < r.ids().len() && r.ids()[i] == token;
                assert(has_entry(r.map@, i));
                let k = choose|k: int| 0 <= k < r.map@.len() && (#[trigger] r.map@[k]).index == i;
                assert(r.map@[k].token_id@ == token);
            }
        },
    }
}

/// The winners of a reservoir differ from each other, and each stands at the
/// place that the index gives for it.
pub proof fn lemma_winners_distinct(r: Reservoir)
    requires
        r.wf(),
    ensures
        distinct(r.ids()),
        forall|i: int|
            0 <= i < r.winners@.len() ==> index_of(r.map@, #[trigger] r.winners@[i]@) == Some(
                i as u32,
            ),
{
    assert forall|i: int, j: int| 0 <= i < j < r.ids().len() implies #[trigger] r.ids()[i]
        != #[trigger] r.ids()[j] by {
        assert(has_entry(r.map@, i));
        assert(has_entry(r.map@, j));
        let k = choose|k: int| 0 <= k < r.map@.len() && (#[trigger] r.map@[k]).index == i;
        let l = choose|l: int| 0 <= l < r.map@.len() && (#[trigger] r.map@[l]).index == j;
        assert(k != l);
        if k < l {
            assert(r.map@[k].token_id@ != r.map@[l].token_id@);
        } else {
            assert(r.map@[l].token_id@ != r.map@[k].token_id@);
        }
    }
    assert forall|i: int| 0 <= i < r.winners@.len() implies index_of(
        r.map@,
        #[trigger] r.winners@[i]@,
    ) == Some(i as u32) by {
        let token = r.winners@[i]@;
        lemma_index_of(r.map@, token);
        assert(has_entry(r.map@, i));
        let k = choose|k: int| 0 <= k < r.map@.len() && (#[trigger] r.map@[k]).index == i;
        assert(r.map@[k].token_id@ == token);
        let found = index_of(r.map@, token).unwrap();
        let f = choose|f: int|
            0 <= f < r.map@.len() && (#[trigger] r.map@[f]).token_id@ == token && r.map@[f].index
                == found;
        if f < k {
            assert(r.map@[f].token_id@ != r.map@[k].token_id@);
        } else if k < f {
            assert(r.map@[k].token_id@ != r.map@[f].token_id@);
        }
    }
}

/// What `consume` leaves is a reservoir again, without the token and with
/// every other winner.
proof fn lemma_consumed(before: Reservoir, after: Reservoir, k: int, token: Seq<char>)
    requires
        before.wf(),
        0 <= k < before.map@.len(),
        before.map@[k].token_id@ == token,
        after.winners@ == swap_removed(before.winners@, before.map@[k].index as int),
        after.map@.len() == before.map@.len() - 1,
        forall|x: int|
            0 <= x < after.map@.len() ==> ({
                let y = if x == k {
                    before.map@.len() - 1
                } else {
                    x
                };
                &&& y != k || k == before.map@.len() - 1
                &&& (#[trigger] after.map@[x]).token_id == before.map@[y].token_id
                &&& after.map@[x].index == (if before.map@[y].index == before.winners@.len() - 1 {
                    before.map@[k].index
                } else {
                    before.map@[y].index
                })
            }),
    ensures
        after.wf(),
        !has_token(after.ids(), token),
        forall|other: Seq<char>|
            other != token ==> has_token(after.ids(), other) == has_token(before.ids(), other),
{
    let n = before.winners@.len() as int;
    let i = before.map@[k].index as int;
    let m = before.map@.len() as int;
    lemma_winners_distinct(before);
    // entries of after are entries of before other than k
    assert forall|x: int| 0 <= x < after.map@.len() implies #[trigger] moved_from(x, k, m) != k
        && 0 <= moved_from(x, k, m) < m by {
        assert(after.map@[x].token_id == before.map@[moved_from(x, k, m)].token_id);
    }
    assert forall|x: int| 0 <= x < after.map@.len() implies (#[trigger] after.map@[x]).index
        < after.winners@.len() && after.winners@[after.map@[x].index as int]@
        == after.map@[x].token_id@ by {
        let y = moved_from(x, k, m);
        assert(after.map@[x].token_id == before.map@[y].token_id);
        assert(before.map@[y].index < n);
        if y < k {
            assert(before.map@[y].token_id@ != before.map@[k].token_id@);
        } else {
            assert(before.map@[k].token_id@ != before.map@[y].token_id@);
        }
        assert(before.ids()[before.map@[y].index as int] == before.map@[y].token_id@);
        assert(before.ids()[i] == before.map@[k].token_id@);
        assert(before.map@[y].index != i);
    }
    assert forall|p: int| 0 <= p < after.winners@.len() implies #[trigger] has_entry(
        after.map@,
        p,
    ) by {
        let q = if p == i {
            n - 1
        } else {
            p
        };
        assert(has_entry(before.map@, q));
        let y = choose|y: int| 0 <= y < before.map@.len() && (#[trigger] before.map@[y]).index == q;
        assert(y != k);
        let x = if y == before.map@.len() - 1 {
            k
        } else {
            y
        };
        assert(moved_from(x, k, m) == y);
        assert(after.map@[x].token_id == before.map@[y].token_id);
        assert(after.map@[x].index == p);
    }
    assert forall|x: int, z: int| 0 <= x < z < after.map@.len() implies (
    #[trigger] after.map@[x]).token_id@ != (#[trigger] after.map@[z]).token_id@ by {
        let a = moved_from(x, k, m);
        let b = moved_from(z, k, m);
        assert(after.map@[x].token_id == before.map@[a].token_id);
        assert(after.map@[z].token_id == before.map@[b].token_id);
        assert(a != b);
        if a < b {
            assert(before.map@[a].token_id@ != before.map@[b].token_id@);
        } else {
            assert(before.map@[b].token_id@ != before.map@[a].token_id@);
        }
    }
    assert(after.wf());
    // membership
    assert forall|p: int| 0 <= p < after.ids().len() implies #[trigger] after.ids()[p] == (if p
        == i {
        before.ids()[n - 1]
    } else {
        before.ids()[p]
    }) by {}
    if has_token(after.ids(), token) {
        let p = choose|p: int| 0 <= p < after.ids().len() && after.ids()[p] == token;
        assert(before.ids()[i] == token);
        if p == i {
            assert(before.ids()[i] != before.ids()[n - 1]);
        } else if p < i {
            assert(before.ids()[p] != before.ids()[i]);
        } else {
            assert(before.ids()[i] != before.ids()[p]);
        }
    }
    assert forall|other: Seq<char>| other != token implies has_token(after.ids(), other)
        == has_token(before.ids(), other) by {
        if has_token(after.ids(), other) {
            let p = choose|p: int| 0 <= p < after.ids().len() && after.ids()[p] == other;
            if p == i {
                assert(before.ids()[n - 1] == other);
            } else {
                assert(before.ids()[p] == other);
            }
        }
        if has_token(before.ids(), other) {
            let p = choose|p: int| 0 <= p < before.ids().len() && before.ids()[p] == other;
            assert(before.ids()[i] == token);
            assert(p != i);
            if p == n - 1 {
                assert(after.ids()[i] == other);
            } else {
                assert(after.ids()[p] == other);
            }
        }
    }
}

/// The first place of a token id in a list.
pub open spec fn position(ids: Seq<Seq<char>>, token: Seq<char>) -> Option<int>
    decreases ids.len(),
{
    if ids.len() == 0 {
        None
    } else if ids[0] == token {
        Some(0)
    } else {
        match position(ids.drop_first(), token) {
            Some(i) => Some(i + 1),
            None => None,
        }
    }
}

/// `position` finds the first place of the token and no other.
pub proof fn lemma_position(ids: Seq<Seq<char>>, token: Seq<char>)
    ensures
        match position(ids, token) {
            Some(i) => 0 <= i < ids.len() && ids[i] == token && forall|k: int|
                0 <= k < i ==> ids[k] != token,
            None => !has_token(ids, token),
        },
    decreases ids.len(),
{
    if ids.len() > 0 && ids[0] != token {
        let rest = ids.drop_first();
        lemma_position(rest, token);
        match position(rest, token) {
            Some(i) => {
                assert forall|k: int| 0 <= k < i + 1 implies ids[k] != token by {
                    if k > 0 {
                        assert(rest[k - 1] != token);
                    }
                }
            },
            None => {
                if has_token(ids, token) {
                    let k = choose|k: int| 0 <= k < ids.len() && ids[k] == token;
                    assert(rest[k - 1] == token);
                }
            },
        }
    }
}

/// In a reservoir the index gives each token the place at which it first
/// stands in the list.
pub proof fn lemma_index_is_position(r: Reservoir, token: Seq<char>)
    requires
        r.wf(),
    ensures
        match index_of(r.map@, token) {
            Some(i) => position(r.ids(), token) == Some(i as int),
            None => position(r.ids(), token).is_none(),
        },
{
    lemma_index_finds_winners(r, token);
    lemma_winners_distinct(r);
    lemma_position(r.ids(), token);
    match index_of(r.map@, token) {
        Some(i) => {
            assert(r.ids()[i as int] == token);
            let p = position(r.ids(), token).unwrap();
            if p < i {
                assert(r.ids()[p] != r.ids()[i as int]);
            }
        },
        None => {},
    }
}

/// Whether a list of token ids holds a token id.
pub fn contains_token(list: &Vec<String>, token_id: &String) -> (found: bool)
    ensures
        found == has_token(ids_of(list@), token_id@),
{
    let mut i: usize = 0;
    while i < list.len()
        invariant
            i <= list.len(),
            forall|k: int| 0 <= k < i ==> ids_of(list@)[k] != token_id@,
        decreases list.len() - i,
    {
        if list[i] == *token_id {
            assert(ids_of(list@)[i as int] == token_id@);
            return true;
        }
        i += 1;
    }
    false
}

/// The index and the list of a reservoir hold the same tokens, and the
/// index gives every winner the place at which it stands.
pub proof fn lemma_reservoir_consistent(r: Reservoir)
    requires
        r.wf(),
    ensures
        forall|token: Seq<char>|
            #[trigger] index_of(r.map@, token).is_some() == has_token(r.ids(), token),
        forall|i: int|
            0 <= i < r.winners@.len() ==> index_of(r.map@, #[trigger] r.winners@[i]@) == Some(
                i as u32,
            ),
{
    assert forall|token: Seq<char>| #[trigger] index_of(r.map@, token).is_some() == has_token(
        r.ids(),
        token,
    ) by {
        lemma_index_finds_winners(r, token);
    }
    lemma_winners_distinct(r);
}

/// Taking a token out of a reservoir leaves every other token where the
/// index finds it: a token other than the consumed one is a winner after if
/// and only if it was one before, and the index gives it the place at which
/// it stands.
pub proof fn lemma_consume_keeps_others(
    before: Reservoir,
    after: Reservoir,
    token: Seq<char>,
    other: Seq<char>,
)
    requires
        before.wf(),
        after.wf(),
        other != token,
        has_token(after.ids(), other) == has_token(before.ids(), other),
    ensures
        index_of(after.map@, other).is_some() == index_of(before.map@, other).is_some(),
        index_of(after.map@, other) matches Some(i) ==> i < after.winners@.len()
            && after.winners@[i as int]@ == other,
{
    lemma_index_finds_winners(before, other);
    lemma_index_finds_winners(after, other);
}

} // verus!
