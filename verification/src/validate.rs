//! Checks of the invariants of the state, for state that comes from
//! outside.
use crate::alchemy_lite::AlchemyLite;
use crate::ledger::{list_of, stake_records, stakes_once, Alchemy};
use crate::raffle::Raffle;
use crate::registry::{on_list, Category, Registry, StoredLayerId, VariantInfo, MAX_COUNT};
use crate::registry_edit::{lemma_skip_position, position_in_skip};
use crate::reservoir::{distinct, has_entry, ids_of, Reservoir};
use crate::staking::{find_user, lemma_user_position, user_position, UserStake};
use vstd::prelude::*;

verus! {

/// Whether the names of a list of categories differ from each other.
pub fn category_names_differ(list: &Vec<Category>) -> (ok: bool)
    ensures
        ok == (forall|a: int, b: int|
            0 <= a < b < list@.len() ==> (#[trigger] list@[a]).name@ != (#[trigger] list@[b]).name@),
{
    let mut i: usize = 0;
    while i < list.len()
        invariant
            i <= list.len(),
            forall|a: int, b: int|
                0 <= a < b < i ==> (#[trigger] list@[a]).name@ != (#[trigger] list@[b]).name@,
        decreases list.len() - i,
    {
        let mut j: usize = 0;
        while j < i
            invariant
                j <= i < list.len(),
                forall|a: int| 0 <= a < j ==> (#[trigger] list@[a]).name@ != list@[i as int].name@,
            decreases i - j,
        {
            if list[j].name == list[i].name {
                assert(list@[j as int].name@ == list@[i as int].name@);
                return false;
            }
            j += 1;
        }
        i += 1;
    }
    true
}

/// Whether the names of a list of variants differ from each other.
pub fn variant_names_differ(list: &Vec<VariantInfo>) -> (ok: bool)
    ensures
        ok == (forall|a: int, b: int|
            0 <= a < b < list@.len() ==> (#[trigger] list@[a]).name@ != (#[trigger] list@[b]).name@),
{
    let mut i: usize = 0;
    while i < list.len()
        invariant
            i <= list.len(),
            forall|a: int, b: int|
                0 <= a < b < i ==> (#[trigger] list@[a]).name@ != (#[trigger] list@[b]).name@,
        decreases list.len() - i,
    {
        let mut j: usize = 0;
        while j < i
            invariant
                j <= i < list.len(),
                forall|a: int| 0 <= a < j ==> (#[trigger] list@[a]).name@ != list@[i as int].name@,
            decreases i - j,
        {
            if list[j].name == list[i].name {
                assert(list@[j as int].name@ == list@[i as int].name@);
                return false;
            }
            j += 1;
        }
        i += 1;
    }
    true
}

impl Registry {
    /// Whether the registry has a layer.
    pub fn holds_layer(&self, id: StoredLayerId) -> (ok: bool)
        ensures
            ok == self@.has_layer(id),
    {
        if id.category as usize >= self.variants.len() {
            return false;
        }
        assert(self@.variants[id.category as int] == self.variants@[id.category as int]@);
        (id.variant as usize) < self.variants[id.category as usize].len()
    }

    /// Whether counts fit and names are unique.
    fn names_ok(&self) -> (ok: bool)
        ensures
            ok == self@.names_wf(),
    {
        if self.categories.len() != self.variants.len() || self.categories.len()
            > MAX_COUNT as usize {
            return false;
        }
        if !category_names_differ(&self.categories) {
            return false;
        }
        let mut c: usize = 0;
        while c < self.categories.len()
            invariant
                c <= self.categories.len(),
                self.categories@.len() == self.variants@.len(),
                forall|k: int|
                    0 <= k < c ==> (#[trigger] self@.categories[k]).cnt == self@.variants[k].len(),
                forall|k: int, a: int, b: int|
                    0 <= k < c && 0 <= a < b < self@.variants[k].len() ==> (
                    #[trigger] self@.variants[k][a]).name@ != (#[trigger] self@.variants[k][b]).name@,
            decreases self.categories.len() - c,
        {
            assert(self@.variants[c as int] == self.variants@[c as int]@);
            if self.categories[c].cnt as usize != self.variants[c].len() {
                assert(self@.categories[c as int].cnt != self@.variants[c as int].len());
                return false;
            }
            if !variant_names_differ(&self.variants[c]) {
                let ghost list = self.variants@[c as int]@;
                proof {
                    let (a, b) = choose|a: int, b: int|
                        0 <= a < b < list.len() && (#[trigger] list[a]).name@ == (
                        #[trigger] list[b]).name@;
                    assert(self@.variants[c as int][a].name@ == self@.variants[c as int][b].name@);
                }
                return false;
            }
            c += 1;
        }
        true
    }

    /// Whether the skip list names the categories that are marked to be
    /// skipped, and no others, once each.
    fn skip_ok(&self) -> (ok: bool)
        ensures
            ok == self@.skip_wf(),
    {
        let skip = &self.state.skip;
        let mut i: usize = 0;
        while i < skip.len()
            invariant
                i <= skip.len(),
                skip@ == self@.skip,
                forall|s: int|
                    0 <= s < i ==> (#[trigger] skip@[s]) < self@.categories.len()
                        && self@.categories[skip@[s] as int].skip,
                forall|s: int, t: int|
                    0 <= s < t < i ==> (#[trigger] skip@[s]) != (#[trigger] skip@[t]),
            decreases skip.len() - i,
        {
            let c = skip[i] as usize;
            if c >= self.categories.len() || !self.categories[c].skip {
                assert(!(skip@[i as int] < self@.categories.len()
                    && self@.categories[skip@[i as int] as int].skip));
                return false;
            }
            let mut j: usize = 0;
            while j < i
                invariant
                    j <= i < skip.len(),
                    skip@ == self@.skip,
                    forall|s: int| 0 <= s < j ==> (#[trigger] skip@[s]) != skip@[i as int],
                decreases i - j,
            {
                if skip[j] == skip[i] {
                    assert(skip@[j as int] == skip@[i as int]);
                    return false;
                }
                j += 1;
            }
            i += 1;
        }
        let mut c: usize = 0;
        while c < self.categories.len()
            invariant
                c <= self.categories.len(),
                skip@ == self@.skip,
                forall|k: int|
                    0 <= k < c && (#[trigger] self@.categories[k]).skip ==> on_list(skip@, k),
            decreases self.categories.len() - c,
        {
            if self.categories[c].skip {
                if c > 255 {
                    assert(self@.categories[c as int].skip && !on_list(skip@, c as int));
                    return false;
                }
                proof {
                    lemma_skip_position(skip@, c as u8);
                }
                match position_in_skip(skip, c as u8) {
                    Some(at) => {
                        assert(skip@[at as int] == c);
                    },
                    None => {
                        assert(self@.categories[c as int].skip && !on_list(skip@, c as int));
                        return false;
                    },
                }
            }
            c += 1;
        }
        true
    }

    /// Whether every dependency joins variants that exist, and no variant
    /// has two dependencies.
    fn dependencies_ok(&self) -> (ok: bool)
        ensures
            ok == self@.dependencies_wf(),
    {
        let deps = &self.dependencies;
        let mut d: usize = 0;
        while d < deps.len()
            invariant
                d <= deps.len(),
                deps@ == self.dependencies@,
                forall|x: int|
                    0 <= x < d ==> self@.has_layer((#[trigger] self@.dependencies[x]).id),
                forall|x: int, k: int|
                    0 <= x < d && 0 <= k < self@.dependencies[x].correlated.len()
                        ==> self@.has_layer(#[trigger] self@.dependencies[x].correlated[k]),
                forall|x: int, y: int|
                    0 <= x < y < d ==> (#[trigger] self@.dependencies[x]).id != (
                    #[trigger] self@.dependencies[y]).id,
            decreases deps.len() - d,
        {
            let dep = &deps[d];
            assert(self@.dependencies[d as int] == dep.model());
            if !self.holds_layer(dep.id) {
                assert(!self@.has_layer(self@.dependencies[d as int].id));
                return false;
            }
            let mut k: usize = 0;
            while k < dep.correlated.len()
                invariant
                    k <= dep.correlated.len(),
                    d < deps.len(),
                    deps@ == self.dependencies@,
                    self@.dependencies[d as int] == dep.model(),
                    forall|j: int| 0 <= j < k ==> self@.has_layer(#[trigger] dep.correlated@[j]),
                decreases dep.correlated.len() - k,
            {
                if !self.holds_layer(dep.correlated[k]) {
                    assert(!self@.has_layer(self@.dependencies[d as int].correlated[k as int]));
                    return false;
                }
                k += 1;
            }
            let mut e: usize = 0;
            while e < d
                invariant
                    e <= d < deps.len(),
                    deps@ == self.dependencies@,
                    self@.dependencies[d as int] == dep.model(),
                    forall|x: int|
                        0 <= x < e ==> (#[trigger] self@.dependencies[x]).id != dep.id,
                decreases d - e,
            {
                let other = deps[e].id;
                assert(self@.dependencies[e as int].id == other);
                if other.category == dep.id.category && other.variant == dep.id.variant {
                    assert(self@.dependencies[e as int].id == self@.dependencies[d as int].id);
                    return false;
                }
                e += 1;
            }
            d += 1;
        }
        true
    }

    /// Whether the invariant of the registry holds.
    pub fn is_wf(&self) -> (ok: bool)
        ensures
            ok == self.wf(),
    {
        self.names_ok() && self.skip_ok() && self.dependencies_ok() && self.state.cat_cnt as usize
            == self.categories.len()
    }
}

impl Reservoir {
    /// Whether the index has an entry for a place.
    fn place_has_entry(&self, place: usize) -> (found: bool)
        ensures
            found == has_entry(self.map@, place as int),
    {
        let mut m: usize = 0;
        while m < self.map.len()
            invariant
                m <= self.map.len(),
                forall|x: int| 0 <= x < m ==> (#[trigger] self.map@[x]).index != place,
            decreases self.map.len() - m,
        {
            if self.map[m].index as usize == place {
                assert(self.map@[m as int].index == place);
                return true;
            }
            m += 1;
        }
        false
    }

    /// Whether the invariant of the reservoir holds.
    pub fn is_wf(&self) -> (ok: bool)
        ensures
            ok == self.wf(),
    {
        if self.winners.len() != self.map.len() || self.winners.len() > u32::MAX as usize {
            return false;
        }
        let n = self.map.len();
        // every entry gives the place of its token, and no token has two entries
        let mut k: usize = 0;
        while k < n
            invariant
                k <= n,
                n == self.map@.len(),
                n == self.winners@.len(),
                forall|x: int|
                    0 <= x < k ==> (#[trigger] self.map@[x]).index < self.winners@.len()
                        && self.winners@[self.map@[x].index as int]@ == self.map@[x].token_id@,
                forall|x: int, y: int|
                    0 <= x < y < k ==> (#[trigger] self.map@[x]).token_id@ != (
                    #[trigger] self.map@[y]).token_id@,
            decreases n - k,
        {
            let entry = &self.map[k];
            if entry.index as usize >= n || !(self.winners[entry.index as usize]
                == entry.token_id) {
                assert(!(self.map@[k as int].index < self.winners@.len()
                    && self.winners@[self.map@[k as int].index as int]@
                    == self.map@[k as int].token_id@));
                return false;
            }
            let mut j: usize = 0;
            while j < k
                invariant
                    j <= k < n,
                    n == self.map@.len(),
                    forall|x: int|
                        0 <= x < j ==> (#[trigger] self.map@[x]).token_id@
                            != self.map@[k as int].token_id@,
                decreases k - j,
            {
                if self.map[j].token_id == self.map[k].token_id {
                    assert(self.map@[j as int].token_id@ == self.map@[k as int].token_id@);
                    return false;
                }
                j += 1;
            }
            k += 1;
        }
        // every place has an entry
        let mut i: usize = 0;
        while i < n
            invariant
                i <= n,
                n == self.map@.len(),
                n == self.winners@.len(),
                forall|p: int| 0 <= p < i ==> #[trigger] has_entry(self.map@, p),
            decreases n - i,
        {
            let found = self.place_has_entry(i);
            if !found {
                return false;
            }
            i += 1;
        }
        true
    }
}

impl Raffle {
    /// Whether the invariant of the raffles holds.
    pub fn is_wf(&self) -> (ok: bool)
        ensures
            ok == self.wf(),
    {
        let rounds_fit = match self.roll.round {
            Some(r) => self.rounds.len() == r as usize + 1,
            None => self.rounds.len() == 0,
        };
        if !rounds_fit || self.roll.claimed as usize != self.redeemed.len() {
            return false;
        }
        let mut r: usize = 0;
        while r < self.rounds.len()
            invariant
                r <= self.rounds.len(),
                forall|x: int|
                    0 <= x < r ==> {
                        let round = #[trigger] self.rounds@[x];
                        &&& round.skulls.wf()
                        &&& round.partner.wf()
                        &&& round.counts.skulls == round.skulls.winners@.len()
                        &&& round.counts.partner == round.partner.winners@.len()
                    },
            decreases self.rounds.len() - r,
        {
            let round = &self.rounds[r];
            if !round.skulls.is_wf() || !round.partner.is_wf() || round.counts.skulls as usize
                != round.skulls.winners.len() || round.counts.partner as usize
                != round.partner.winners.len() {
                assert(!({
                    let round = self.rounds@[r as int];
                    &&& round.skulls.wf()
                    &&& round.partner.wf()
                    &&& round.counts.skulls == round.skulls.winners@.len()
                    &&& round.counts.partner == round.partner.winners@.len()
                }));
                return false;
            }
            r += 1;
        }
        true
    }
}

impl AlchemyLite {
    /// Whether the invariant of the potion contract holds.
    pub fn is_wf(&self) -> (ok: bool)
        ensures
            ok == self.wf(),
    {
        if self.potions.len() != self.state.potion_cnt as usize {
            return false;
        }
        let n = self.potions.len();
        let mut i: usize = 0;
        while i < n
            invariant
                i <= n,
                n == self.potions@.len(),
                forall|a: int, b: int|
                    0 <= a < b < i ==> (#[trigger] self.potions@[a]).name@ != (
                    #[trigger] self.potions@[b]).name@,
                forall|a: int|
                    0 <= a < i ==> (#[trigger] self.potions@[a]).svg_server
                        < self.state.svg_contracts@.len(),
            decreases n - i,
        {
            if self.potions[i].svg_server as usize >= self.state.svg_contracts.len() {
                assert(!(self.potions@[i as int].svg_server < self.state.svg_contracts@.len()));
                return false;
            }
            let mut j: usize = 0;
            while j < i
                invariant
                    j <= i < n,
                    n == self.potions@.len(),
                    forall|a: int|
                        0 <= a < j ==> (#[trigger] self.potions@[a]).name@
                            != self.potions@[i as int].name@,
                decreases i - j,
            {
                if self.potions[j].name == self.potions[i].name {
                    assert(self.potions@[j as int].name@ == self.potions@[i as int].name@);
                    return false;
                }
                j += 1;
            }
            i += 1;
        }
        true
    }
}

/// Whether the tokens of a list differ from each other.
pub fn tokens_differ(list: &Vec<String>) -> (ok: bool)
    ensures
        ok == distinct(ids_of(list@)),
{
    let ghost ids = ids_of(list@);
    let mut i: usize = 0;
    while i < list.len()
        invariant
            i <= list.len(),
            ids == ids_of(list@),
            forall|a: int, b: int| 0 <= a < b < i ==> #[trigger] ids[a] != #[trigger] ids[b],
        decreases list.len() - i,
    {
        let mut j: usize = 0;
        while j < i
            invariant
                j <= i < list.len(),
                ids == ids_of(list@),
                forall|a: int| 0 <= a < j ==> #[trigger] ids[a] != ids[i as int],
            decreases i - j,
        {
            if list[j] == list[i] {
                assert(ids[j as int] == ids[i as int]);
                return false;
            }
            j += 1;
        }
        i += 1;
    }
    true
}

/// Whether no user stakes a skull twice.
pub fn users_stake_once(users: &Vec<UserStake>) -> (ok: bool)
    ensures
        ok == stakes_once(users@),
{
    let mut i: usize = 0;
    while i < users.len()
        invariant
            i <= users.len(),
            forall|a: int|
                0 <= a < i && user_position(users@, (#[trigger] users@[a]).user@) == Some(a)
                    ==> distinct(ids_of(users@[a].tokens@)),
        decreases users.len() - i,
    {
        if find_user(users, &users[i].user) == Some(i) {
            if !tokens_differ(&users[i].tokens) {
                assert(list_of(users@, users@[i as int].user@).is_some());
                return false;
            }
        }
        i += 1;
    }
    proof {
        assert forall|user: Seq<u8>| (#[trigger] list_of(users@, user)).is_some() implies distinct(
            list_of(users@, user).unwrap(),
        ) by {
            lemma_user_position(users@, user);
            let a = user_position(users@, user).unwrap();
            assert(users@[a].user@ == user);
        }
    }
    true
}

impl Alchemy {
    /// Whether the invariant of the ledger holds.
    pub fn is_wf(&self) -> (ok: bool)
        ensures
            ok == self.wf(),
    {
        let stakes = &self.skull_stakes;
        let ghost records = stake_records(stakes@);
        let mut i: usize = 0;
        while i < stakes.len()
            invariant
                i <= stakes.len(),
                stakes@ == self.skull_stakes@,
                records == stake_records(stakes@),
                forall|a: int, b: int|
                    0 <= a < b < i ==> (#[trigger] records[a]).token != (#[trigger] records[b]).token,
            decreases stakes.len() - i,
        {
            let mut j: usize = 0;
            while j < i
                invariant
                    j <= i < stakes.len(),
                    stakes@ == self.skull_stakes@,
                    records == stake_records(stakes@),
                    forall|a: int| 0 <= a < j ==> (#[trigger] records[a]).token != records[i as int].token,
                decreases i - j,
            {
                if stakes[j].token_id == stakes[i].token_id {
                    assert(records[j as int].token == records[i as int].token);
                    return false;
                }
                j += 1;
            }
            i += 1;
        }
        users_stake_once(&self.user_stakes)
    }
}

} // verus!
