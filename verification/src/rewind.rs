//! Rewinds: a skull goes back to what it was before its last potion.
use crate::auth::{
    add_addrs_to_auth, addresses, check_admin, has_address, remove_addrs_from_auth, with_addresses,
    without_addresses,
};
use crate::error::EngineError;
use crate::potion::{ImageInfo, StoreContractInfo};
use crate::registry_edit::copy_bytes;
use crate::transmute::{fully_revealed, is_fully_revealed};
use vstd::prelude::*;

verus! {

/// The settings of rewinding.
#[derive(Clone, Debug, PartialEq, Eq)]
pub struct Config {
    /// The contract of the skulls.
    pub nft_contract: StoreContractInfo,
    /// Whether rewinding is halted.
    pub halt: bool,
    /// Who may change the settings.
    pub admins: Vec<Vec<u8>>,
    /// The key with which the contract reads from others.
    pub viewing_key: String,
    /// The seconds that must pass between two rewinds of a skull.
    pub cooldown: u64,
}

/// When a token was last rewound, if it ever was.
#[derive(Clone, Debug, PartialEq, Eq)]
pub struct TokenTime {
    pub token_id: String,
    pub timestamp: Option<u64>,
}

/// When a token was last rewound.
#[derive(Clone, Debug, PartialEq, Eq)]
pub struct RewindTime {
    pub token_id: String,
    pub time: u64,
}

/// The rewinds: their settings and the time of the last rewind of each
/// token.
#[derive(Clone, Debug, PartialEq, Eq)]
pub struct Rewinder {
    pub config: Config,
    pub times: Vec<RewindTime>,
}

/// A rewound skull.
#[derive(Clone, Debug, PartialEq, Eq)]
pub struct Rewound {
    /// The images of the skull after the rewind.
    pub image_info: ImageInfo,
    /// The names of the categories that went back.
    pub categories_rewound: Vec<String>,
}

/// The first time kept for a token.
pub open spec fn time_position(times: Seq<RewindTime>, token: Seq<char>) -> Option<int>
    decreases times.len(),
{
    if times.len() == 0 {
        None
    } else if times[0].token_id@ == token {
        Some(0)
    } else {
        match time_position(times.drop_first(), token) {
            Some(i) => Some(i + 1),
            None => None,
        }
    }
}

/// When a token was last rewound, if it ever was.
pub open spec fn last_rewind(times: Seq<RewindTime>, token: Seq<char>) -> Option<u64> {
    match time_position(times, token) {
        Some(i) => Some(times[i].time),
        None => None,
    }
}

/// `time_position` finds the first time of the token and no other.
pub proof fn lemma_time_position(times: Seq<RewindTime>, token: Seq<char>)
    ensures
        match time_position(times, token) {
            Some(i) => 0 <= i < times.len() && times[i].token_id@ == token && forall|k: int|
                0 <= k < i ==> times[k].token_id@ != token,
            None => forall|k: int| 0 <= k < times.len() ==> times[k].token_id@ != token,
        },
    decreases times.len(),
{
    if times.len() > 0 && times[0].token_id@ != token {
        let rest = times.drop_first();
        lemma_time_position(rest, token);
        match time_position(rest, token) {
            Some(i) => {
                assert forall|k: int| 0 <= k < i + 1 implies times[k].token_id@ != token by {
                    if k > 0 {
                        assert(rest[k - 1].token_id@ != token);
                    }
                }
            },
            None => {
                assert forall|k: int| 0 <= k < times.len() implies times[k].token_id@ != token by {
                    if k > 0 {
                        assert(rest[k - 1].token_id@ != token);
                    }
                }
            },
        }
    }
}

/// Keeping the tokens of a list of times keeps where each token is found.
pub proof fn lemma_times_kept(before: Seq<RewindTime>, after: Seq<RewindTime>, token: Seq<char>)
    requires
        before.len() == after.len(),
        forall|k: int| 0 <= k < before.len() ==> before[k].token_id@ == after[k].token_id@,
    ensures
        time_position(after, token) == time_position(before, token),
    decreases before.len(),
{
    if before.len() > 0 {
        let b = before.drop_first();
        let a = after.drop_first();
        assert forall|k: int| 0 <= k < b.len() implies b[k].token_id@ == a[k].token_id@ by {
            assert(before[k + 1].token_id@ == after[k + 1].token_id@);
        }
        lemma_times_kept(b, a, token);
    }
}

/// Adding a token to a list of times keeps where every other token is found,
/// and finds the new token at the end if nowhere before.
pub proof fn lemma_time_added(before: Seq<RewindTime>, entry: RewindTime, token: Seq<char>)
    ensures
        time_position(before.push(entry), token) == (match time_position(before, token) {
            Some(i) => Some(i),
            None => if entry.token_id@ == token {
                Some(before.len() as int)
            } else {
                None
            },
        }),
    decreases before.len(),
{
    let after = before.push(entry);
    reveal_with_fuel(time_position, 2);
    if before.len() == 0 {
        assert(after.drop_first() =~= Seq::<RewindTime>::empty());
        assert(after[0] == entry);
    } else {
        assert(after.drop_first() =~= before.drop_first().push(entry));
        assert(after[0] == before[0]);
        lemma_time_added(before.drop_first(), entry, token);
    }
}

/// The variant that an image has in a category; none where the image is
/// too short to have the category.
pub open spec fn variant_at(image: Seq<u8>, c: int) -> Option<u8> {
    if 0 <= c < image.len() {
        Some(image[c])
    } else {
        None
    }
}

/// The names of the first `n` categories in which two images differ, in
/// the order of the categories.
pub open spec fn changed_categories(
    names: Seq<String>,
    current: Seq<u8>,
    previous: Seq<u8>,
    n: int,
) -> Seq<String>
    decreases n,
{
    if n <= 0 {
        Seq::empty()
    } else {
        let before = changed_categories(names, current, previous, n - 1);
        if variant_at(current, n - 1) != variant_at(previous, n - 1) {
            before.push(names[n - 1])
        } else {
            before
        }
    }
}

/// Why a skull cannot be rewound, if it cannot: rewinds are halted; the
/// sender does not own the skull; the skull is as it was before; it was
/// rewound less than a cooldown ago; or its current or its previous image
/// holds an unrevealed category. The first of these that holds is the
/// refusal.
pub open spec fn rewind_error(
    halt: bool,
    cooldown: u64,
    last: Option<u64>,
    sender: Seq<char>,
    owner: Seq<char>,
    current: Seq<u8>,
    previous: Seq<u8>,
    now: u64,
) -> Option<EngineError> {
    if halt {
        Some(EngineError::Halted)
    } else if sender != owner {
        Some(EngineError::Unauthorized)
    } else if previous == current {
        Some(EngineError::NothingToRewind)
    } else if last matches Some(t) && t + cooldown > now {
        Some(EngineError::CooldownActive)
    } else if !fully_revealed(current) {
        Some(EngineError::NotFullyRevealed)
    } else if !fully_revealed(previous) {
        Some(EngineError::PreviousNotRevealed)
    } else {
        None
    }
}

impl Rewinder {
    /// Where the time of a token is kept.
    fn time_index(&self, token_id: &String) -> (found: Option<usize>)
        ensures
            match found {
                Some(i) => time_position(self.times@, token_id@) == Some(i as int) && i
                    < self.times@.len(),
                None => time_position(self.times@, token_id@).is_none(),
            },
    {
        let mut i: usize = 0;
        while i < self.times.len()
            invariant
                i <= self.times.len(),
                forall|k: int| 0 <= k < i ==> self.times@[k].token_id@ != token_id@,
            decreases self.times.len() - i,
        {
            if self.times[i].token_id == *token_id {
                proof {
                    lemma_time_position(self.times@, token_id@);
                }
                return Some(i);
            }
            i += 1;
        }
        proof {
            lemma_time_position(self.times@, token_id@);
        }
        None
    }

    /// When a token was last rewound, if it ever was.
    pub fn last_rewind_time(&self, token_id: &String) -> (last: Option<u64>)
        ensures
            last == last_rewind(self.times@, token_id@),
    {
        match self.time_index(token_id) {
            Some(i) => Some(self.times[i].time),
            None => None,
        }
    }

    /// Rewinds a skull: its current image becomes its previous one, and the
    /// time of the rewind is kept. Only the owner rewinds a skull, and only
    /// one whose images differ, no sooner than a cooldown after its last
    /// rewind; both images must be fully revealed. A category that only one
    /// of the images has counts as changed. `category_names` holds the names of the
    /// categories, by index. Where the rewind is refused, nothing changes.
    pub fn try_rewind(
        &mut self,
        sender: &String,
        token_id: &String,
        owner: &String,
        image_info: ImageInfo,
        category_names: &Vec<String>,
        now: u64,
    ) -> (out: Result<Rewound, EngineError>)
        ensures
            match rewind_error(
                old(self).config.halt,
                old(self).config.cooldown,
                last_rewind(old(self).times@, token_id@),
                sender@,
                owner@,
                image_info.current@,
                image_info.previous@,
                now,
            ) {
                Some(e) => out == Err::<Rewound, EngineError>(e) && *final(self) == *old(self),
                None => out matches Ok(rewound) && {
                    &&& rewound.image_info.current@ == image_info.previous@
                    &&& rewound.image_info.previous == image_info.previous
                    &&& rewound.image_info.natural == image_info.natural
                    &&& rewound.image_info.svg_server == image_info.svg_server
                    &&& rewound.categories_rewound@ == changed_categories(
                        category_names@,
                        image_info.current@,
                        image_info.previous@,
                        category_names@.len() as int,
                    )
                    &&& final(self).config == old(self).config
                    &&& last_rewind(final(self).times@, token_id@) == Some(now)
                    &&& forall|other: Seq<char>|
                        other != token_id@ ==> last_rewind(final(self).times@, other)
                            == last_rewind(old(self).times@, other)
                },
            },
    {
        if self.config.halt {
            return Err(EngineError::Halted);
        }
        if !(*sender == *owner) {
            return Err(EngineError::Unauthorized);
        }
        if crate::text::bytes_eq(&image_info.previous, &image_info.current) {
            return Err(EngineError::NothingToRewind);
        }
        if let Some(last) = self.last_rewind_time(token_id) {
            if last as u128 + self.config.cooldown as u128 > now as u128 {
                return Err(EngineError::CooldownActive);
            }
        }
        if !is_fully_revealed(&image_info.current) {
            return Err(EngineError::NotFullyRevealed);
        }
        if !is_fully_revealed(&image_info.previous) {
            return Err(EngineError::PreviousNotRevealed);
        }
        let mut categories_rewound: Vec<String> = Vec::new();
        let mut i: usize = 0;
        while i < category_names.len()
            invariant
                i <= category_names.len(),
                categories_rewound@ == changed_categories(
                    category_names@,
                    image_info.current@,
                    image_info.previous@,
                    i as int,
                ),
            decreases category_names.len() - i,
        {
            let in_current = i < image_info.current.len();
            let in_previous = i < image_info.previous.len();
            let differ = if in_current && in_previous {
                image_info.current[i] != image_info.previous[i]
            } else {
                in_current != in_previous
            };
            if differ {
                categories_rewound.push(category_names[i].clone());
            }
            i += 1;
        }
        let ghost before = self.times@;
        proof {
            lemma_time_position(before, token_id@);
        }
        match self.time_index(token_id) {
            Some(k) => {
                self.times[k].time = now;
                proof {
                    assert forall|other: Seq<char>| true implies time_position(self.times@, other)
                        == time_position(before, other) by {
                        lemma_times_kept(before, self.times@, other);
                    }
                    assert forall|other: Seq<char>| other != token_id@ implies last_rewind(
                        self.times@,
                        other,
                    ) == last_rewind(before, other) by {
                        lemma_time_position(before, other);
                    }
                }
            },
            None => {
                let entry = RewindTime { token_id: token_id.clone(), time: now };
                self.times.push(entry);
                proof {
                    assert forall|other: Seq<char>| true implies time_position(self.times@, other)
                        == (match time_position(before, other) {
                        Some(i) => Some(i),
                        None => if entry.token_id@ == other {
                            Some(before.len() as int)
                        } else {
                            None
                        },
                    }) by {
                        lemma_time_added(before, entry, other);
                    }
                    assert forall|other: Seq<char>| other != token_id@ implies last_rewind(
                        self.times@,
                        other,
                    ) == last_rewind(before, other) by {
                        lemma_time_position(before, other);
                    }
                }
            },
        }
        let ImageInfo { current: _, previous, natural, svg_server } = image_info;
        let current = copy_bytes(&previous);
        Ok(
            Rewound {
                image_info: ImageInfo { current, previous, natural, svg_server },
                categories_rewound,
            },
        )
    }
}

/// A skull that was just rewound cannot be rewound again: its current image
/// is its previous one, and its owner is told that there is nothing to
/// rewind, whatever the cooldown and the time.
pub proof fn lemma_second_rewind_refused(
    halt: bool,
    cooldown: u64,
    last: Option<u64>,
    sender: Seq<char>,
    owner: Seq<char>,
    image: Seq<u8>,
    now: u64,
)
    ensures
        rewind_error(halt, cooldown, last, sender, owner, image, image, now).is_some(),
        !halt && sender == owner ==> rewind_error(
            halt,
            cooldown,
            last,
            sender,
            owner,
            image,
            image,
            now,
        ) == Some(EngineError::NothingToRewind),
{
}

/// The times of the first `n` tokens of a list.
pub open spec fn rewind_times(times: Seq<RewindTime>, tokens: Seq<String>, n: int) -> Seq<TokenTime>
    decreases n,
{
    if n <= 0 {
        Seq::empty()
    } else {
        rewind_times(times, tokens, n - 1).push(
            TokenTime { token_id: tokens[n - 1], timestamp: last_rewind(times, tokens[n - 1]@) },
        )
    }
}

impl Rewinder {
    /// Whether an address is an admin.
    pub open spec fn is_admin(&self, address: Seq<u8>) -> bool {
        has_address(addresses(self.config.admins@), address)
    }

    /// Halts rewinds, or lets them go on; for an admin.
    pub fn try_set_status(&mut self, sender: &Vec<u8>, halt: bool) -> (out: Result<bool, EngineError>)
        ensures
            final(self).times == old(self).times,
            match out {
                Ok(halted) => old(self).is_admin(sender@) && halted == halt && final(self).config
                    == (Config { halt, ..old(self).config }),
                Err(e) => e == EngineError::Unauthorized && !old(self).is_admin(sender@)
                    && *final(self) == *old(self),
            },
    {
        match check_admin(&self.config.admins, sender) {
            Ok(_) => {},
            Err(e) => {
                return Err(e);
            },
        }
        self.config.halt = halt;
        Ok(halt)
    }

    /// Sets the seconds between two rewinds of a skull, for an admin.
    pub fn try_set_cooldown(&mut self, sender: &Vec<u8>, cooldown: u64) -> (out: Result<
        u64,
        EngineError,
    >)
        ensures
            final(self).times == old(self).times,
            match out {
                Ok(set) => old(self).is_admin(sender@) && set == cooldown && final(self).config == (
                Config { cooldown, ..old(self).config }),
                Err(e) => e == EngineError::Unauthorized && !old(self).is_admin(sender@)
                    && *final(self) == *old(self),
            },
    {
        match check_admin(&self.config.admins, sender) {
            Ok(_) => {},
            Err(e) => {
                return Err(e);
            },
        }
        self.config.cooldown = cooldown;
        Ok(cooldown)
    }

    /// Adds admins, for an admin. Returns whether the list changed.
    pub fn try_add_admins(&mut self, sender: &Vec<u8>, addrs_to_add: &Vec<Vec<u8>>) -> (out: Result<
        bool,
        EngineError,
    >)
        ensures
            final(self).times == old(self).times,
            final(self).config.halt == old(self).config.halt,
            final(self).config.cooldown == old(self).config.cooldown,
            final(self).config.nft_contract == old(self).config.nft_contract,
            final(self).config.viewing_key == old(self).config.viewing_key,
            match out {
                Ok(changed) => old(self).is_admin(sender@) && addresses(final(self).config.admins@)
                    == with_addresses(addresses(old(self).config.admins@), addresses(addrs_to_add@))
                    && changed == (final(self).config.admins@.len() != old(self).config.admins@.len()),
                Err(e) => e == EngineError::Unauthorized && !old(self).is_admin(sender@)
                    && *final(self) == *old(self),
            },
    {
        match check_admin(&self.config.admins, sender) {
            Ok(_) => {},
            Err(e) => {
                return Err(e);
            },
        }
        Ok(add_addrs_to_auth(&mut self.config.admins, addrs_to_add))
    }

    /// Takes admins out of the list, for an admin. Returns whether the list
    /// changed.
    pub fn try_remove_admins(&mut self, sender: &Vec<u8>, addrs_to_remove: &Vec<Vec<u8>>) -> (out:
        Result<bool, EngineError>)
        ensures
            final(self).times == old(self).times,
            final(self).config.halt == old(self).config.halt,
            final(self).config.cooldown == old(self).config.cooldown,
            final(self).config.nft_contract == old(self).config.nft_contract,
            final(self).config.viewing_key == old(self).config.viewing_key,
            match out {
                Ok(changed) => old(self).is_admin(sender@) && addresses(final(self).config.admins@)
                    == without_addresses(
                    addresses(old(self).config.admins@),
                    addresses(addrs_to_remove@),
                ) && changed == (final(self).config.admins@.len() != old(self).config.admins@.len()),
                Err(e) => e == EngineError::Unauthorized && !old(self).is_admin(sender@)
                    && *final(self) == *old(self),
            },
    {
        match check_admin(&self.config.admins, sender) {
            Ok(_) => {},
            Err(e) => {
                return Err(e);
            },
        }
        Ok(remove_addrs_from_auth(&mut self.config.admins, addrs_to_remove))
    }

    /// When each token of a list was last rewound. The list is shown to the
    /// owner of its tokens only.
    pub fn query_rewind_times(&self, token_ids: &Vec<String>, is_owner: bool) -> (out: Result<
        Vec<TokenTime>,
        EngineError,
    >)
        ensures
            if !is_owner {
                out == Err::<Vec<TokenTime>, EngineError>(EngineError::Unauthorized)
            } else {
                out matches Ok(shown) && shown@ == rewind_times(
                    self.times@,
                    token_ids@,
                    token_ids@.len() as int,
                )
            },
    {
        if !is_owner {
            return Err(EngineError::Unauthorized);
        }
        let mut shown: Vec<TokenTime> = Vec::new();
        let mut i: usize = 0;
        while i < token_ids.len()
            invariant
                i <= token_ids.len(),
                shown@ == rewind_times(self.times@, token_ids@, i as int),
            decreases token_ids.len() - i,
        {
            shown.push(
                TokenTime {
                    token_id: token_ids[i].clone(),
                    timestamp: self.last_rewind_time(&token_ids[i]),
                },
            );
            i += 1;
        }
        Ok(shown)
    }
}

impl Rewinder {
    /// A new rewind contract: no skull was rewound, and rewinds are not
    /// halted. Its creator is its admin.
    pub fn init(creator: &Vec<u8>, nft_contract: StoreContractInfo, viewing_key: String, cooldown: u64) -> (contract:
        Rewinder)
        ensures
            addresses(contract.config.admins@) == seq![creator@],
            contract.config.nft_contract == nft_contract,
            contract.config.viewing_key == viewing_key,
            contract.config.cooldown == cooldown,
            !contract.config.halt,
            contract.times@.len() == 0,
    {
        let mut admins: Vec<Vec<u8>> = Vec::new();
        admins.push(copy_bytes(creator));
        assert(addresses(admins@) =~= seq![creator@]);
        Rewinder {
            config: Config { nft_contract, halt: false, admins, viewing_key, cooldown },
            times: Vec::new(),
        }
    }
}

} // verus!
