//! Raffles: drawing the tokens that may claim a potion, round by round, and
//! redeeming the claims.
use crate::auth::{
    add_addrs_to_auth, addresses, check_admin, has_address, remove_addrs_from_auth,
    with_addresses, without_addresses, AuthLists,
};
use crate::error::EngineError;
use crate::prng::{extend_entropy, extended_entropy, Prng, PrngModel};
use crate::reservoir::{
    contains_token, has_token, ids_of, lemma_index_is_position, position, swap_removed, Reservoir,
};
use crate::text::{bytes_eq, decimal, decimal_string};
use vstd::prelude::*;
use vstd::string::StringExecFns;

verus! {

/// The number of skulls: their token ids run from 0 up to this.
pub const SKULL_COUNT: u32 = 10000;

/// The settings and counters of the raffles.
#[derive(Clone, Debug, PartialEq, Eq)]
pub struct RollConfig {
    /// How many claims were redeemed.
    pub claimed: u32,
    /// The name of the partner collection.
    pub partner: String,
    /// How many tokens the partner collection has.
    pub num_tokens: u32,
    /// Whether the token ids of the partner collection start at one.
    pub start_one: bool,
    /// The last round that was drawn, if any was.
    pub round: Option<u16>,
    /// Whether claims are halted.
    pub halted: bool,
}

/// How many winners of a round have not redeemed, by collection.
#[derive(Clone, Copy, Debug, PartialEq, Eq, Structural)]
pub struct Counts {
    pub skulls: u32,
    pub partner: u32,
}

/// A redeemed claim as it is kept.
#[derive(Clone, Debug, PartialEq, Eq)]
pub struct StoredRedeem {
    pub is_skull: bool,
    pub token_id: String,
    pub owner: Vec<u8>,
    pub round: u16,
}

/// A redeemed claim as it is shown.
#[derive(Clone, Debug, PartialEq, Eq)]
pub struct Claim {
    pub collection: String,
    pub token_id: String,
    pub owner: Vec<u8>,
    pub round: u16,
}

/// The winners of one round.
#[derive(Clone, Debug, PartialEq, Eq)]
pub struct Round {
    pub counts: Counts,
    pub skulls: Reservoir,
    pub partner: Reservoir,
}

/// The raffles of a pair of collections.
#[derive(Clone, Debug, PartialEq, Eq)]
pub struct Raffle {
    /// Who may draw and halt.
    pub admins: Vec<Vec<u8>>,
    /// Settings and counters.
    pub roll: RollConfig,
    /// The seed of the next raffle.
    pub prng_seed: Vec<u8>,
    /// The address of the skull collection.
    pub skulls_address: Vec<u8>,
    /// The address of the partner collection.
    pub partner_address: Vec<u8>,
    /// The skulls drawn in any round.
    pub drawn_skulls: Vec<String>,
    /// The partner tokens drawn in any round.
    pub drawn_partner: Vec<String>,
    /// The rounds, by number.
    pub rounds: Vec<Round>,
    /// The redeemed claims, in the order in which they were redeemed.
    pub redeemed: Vec<StoredRedeem>,
}

/// The token that a draw names: the drawn number, reduced to the size of
/// the collection, counted from the first token id.
pub open spec fn drawn_token(prng: PrngModel, tokens: u32, modifier: u32) -> int {
    (prng.peek_u64() as int % tokens as int) + modifier
}

/// What the draws of one collection give: tokens are drawn until `need` of
/// them are neither drawn before (`drawn`) nor in this round (`winners`).
/// Each draw takes one of the `budget` attempts. Given back are the winners
/// of the round, the generator after the draws and the attempts that are
/// left.
pub open spec fn roll_spec(
    drawn: Seq<Seq<char>>,
    winners: Seq<Seq<char>>,
    prng: PrngModel,
    need: nat,
    tokens: u32,
    modifier: u32,
    budget: nat,
) -> Result<(Seq<Seq<char>>, PrngModel, nat), EngineError>
    decreases budget,
{
    if need == 0 {
        Ok((winners, prng, budget))
    } else if tokens == 0 {
        Err(EngineError::BadInput)
    } else if budget == 0 {
        Err(EngineError::LimitExceeded)
    } else {
        let w = drawn_token(prng, tokens, modifier);
        if w > u32::MAX {
            Err(EngineError::LimitExceeded)
        } else {
            let token = decimal(w as nat);
            if has_token(drawn, token) || has_token(winners, token) {
                roll_spec(
                    drawn,
                    winners,
                    prng.after_u64(),
                    need,
                    tokens,
                    modifier,
                    (budget - 1) as nat,
                )
            } else {
                roll_spec(
                    drawn,
                    winners.push(token),
                    prng.after_u64(),
                    (need - 1) as nat,
                    tokens,
                    modifier,
                    (budget - 1) as nat,
                )
            }
        }
    }
}

/// The draws add `need` winners, none of which was drawn before or twice.
pub proof fn lemma_roll_spec(
    drawn: Seq<Seq<char>>,
    winners: Seq<Seq<char>>,
    prng: PrngModel,
    need: nat,
    tokens: u32,
    modifier: u32,
    budget: nat,
)
    requires
        forall|i: int| 0 <= i < winners.len() ==> !has_token(drawn, #[trigger] winners[i]),
        forall|i: int, j: int|
            0 <= i < j < winners.len() ==> #[trigger] winners[i] != #[trigger] winners[j],
    ensures
        roll_spec(drawn, winners, prng, need, tokens, modifier, budget) matches Ok((all, _, left))
            ==> {
            &&& all.len() == winners.len() + need
            &&& left <= budget
            &&& all.subrange(0, winners.len() as int) == winners
            &&& forall|i: int| 0 <= i < all.len() ==> !has_token(drawn, #[trigger] all[i])
            &&& forall|i: int, j: int|
                0 <= i < j < all.len() ==> #[trigger] all[i] != #[trigger] all[j]
        },
    decreases budget,
{
    if need == 0 {
        assert(winners.subrange(0, winners.len() as int) =~= winners);
    } else if tokens != 0 && budget != 0 {
        let w = drawn_token(prng, tokens, modifier);
        if w <= u32::MAX {
            let token = decimal(w as nat);
            if has_token(drawn, token) || has_token(winners, token) {
                lemma_roll_spec(
                    drawn,
                    winners,
                    prng.after_u64(),
                    need,
                    tokens,
                    modifier,
                    (budget - 1) as nat,
                );
            } else {
                let more = winners.push(token);
                assert forall|i: int, j: int| 0 <= i < j < more.len() implies #[trigger] more[i]
                    != #[trigger] more[j] by {
                    if j == winners.len() {
                        assert(winners[i] == more[i]);
                    }
                }
                lemma_roll_spec(
                    drawn,
                    more,
                    prng.after_u64(),
                    (need - 1) as nat,
                    tokens,
                    modifier,
                    (budget - 1) as nat,
                );
                if let Ok((all, _, _)) = roll_spec(
                    drawn,
                    more,
                    prng.after_u64(),
                    (need - 1) as nat,
                    tokens,
                    modifier,
                    (budget - 1) as nat,
                ) {
                    assert(all.subrange(0, winners.len() as int) =~= more.subrange(
                        0,
                        winners.len() as int,
                    ));
                    assert(more.subrange(0, winners.len() as int) =~= winners);
                }
            }
        }
    }
}

/// Whether a token id is the decimal text of one of the `tokens` numbers
/// that start at `modifier`.
pub open spec fn is_token_of(token: Seq<char>, tokens: u32, modifier: u32) -> bool {
    exists|w: nat| modifier <= w < tokens + modifier && #[trigger] decimal(w) == token
}

/// Every winner that the draws add is a token of the collection.
pub proof fn lemma_roll_draws_tokens(
    drawn: Seq<Seq<char>>,
    winners: Seq<Seq<char>>,
    prng: PrngModel,
    need: nat,
    tokens: u32,
    modifier: u32,
    budget: nat,
)
    requires
        forall|i: int| 0 <= i < winners.len() ==> is_token_of(#[trigger] winners[i], tokens, modifier),
    ensures
        roll_spec(drawn, winners, prng, need, tokens, modifier, budget) matches Ok((all, _, _))
            ==> forall|i: int| 0 <= i < all.len() ==> is_token_of(#[trigger] all[i], tokens, modifier),
    decreases budget,
{
    if need != 0 && tokens != 0 && budget != 0 {
        let w = drawn_token(prng, tokens, modifier);
        if w <= u32::MAX {
            let token = decimal(w as nat);
            if has_token(drawn, token) || has_token(winners, token) {
                lemma_roll_draws_tokens(
                    drawn,
                    winners,
                    prng.after_u64(),
                    need,
                    tokens,
                    modifier,
                    (budget - 1) as nat,
                );
            } else {
                let more = winners.push(token);
                let reduced = prng.peek_u64() as int % tokens as int;
                assert(0 <= reduced < tokens) by (nonlinear_arith)
                    requires
                        reduced == prng.peek_u64() as int % tokens as int,
                        tokens > 0,
                ;
                assert(decimal(w as nat) == token);
                assert(is_token_of(token, tokens, modifier));
                assert forall|i: int| 0 <= i < more.len() implies is_token_of(
                    #[trigger] more[i],
                    tokens,
                    modifier,
                ) by {
                    if i < winners.len() {
                        assert(more[i] == winners[i]);
                    }
                }
                lemma_roll_draws_tokens(
                    drawn,
                    more,
                    prng.after_u64(),
                    (need - 1) as nat,
                    tokens,
                    modifier,
                    (budget - 1) as nat,
                );
            }
        }
    }
}

/// Draws the winners of one collection for a round: `draws` tokens out of
/// `tokens`, whose ids start at `modifier`, none of which is in `drawn`.
/// Every draw takes one of the attempts that `attempts` counts; when none is
/// left the draws fail. The winners differ from each other, none was drawn
/// before, and each is a token of the collection.
pub fn roll(
    drawn: &Vec<String>,
    prng: &mut Prng,
    draws: u32,
    tokens: u32,
    modifier: u32,
    attempts: &mut u64,
) -> (out: Result<Reservoir, EngineError>)
    ensures
        match roll_spec(
            ids_of(drawn@),
            Seq::empty(),
            old(prng)@,
            draws as nat,
            tokens,
            modifier,
            *old(attempts) as nat,
        ) {
            Ok((winners, end, left)) => out matches Ok(reservoir) && reservoir.wf()
                && reservoir.ids() == winners && winners.len() == draws && final(prng)@ == end
                && *final(attempts) == left,
            Err(e) => out == Err::<Reservoir, EngineError>(e) && final(prng)@ == old(prng)@
                && *final(attempts) == *old(attempts),
        },
        out matches Ok(reservoir) ==> {
            &&& reservoir.winners@.len() == draws
            &&& crate::reservoir::distinct(reservoir.ids())
            &&& forall|i: int|
                0 <= i < reservoir.ids().len() ==> !has_token(
                    ids_of(drawn@),
                    #[trigger] reservoir.ids()[i],
                ) && is_token_of(reservoir.ids()[i], tokens, modifier)
        },
{
    proof {
        lemma_roll_spec(
            ids_of(drawn@),
            Seq::empty(),
            old(prng)@,
            draws as nat,
            tokens,
            modifier,
            *old(attempts) as nat,
        );
        lemma_roll_draws_tokens(
            ids_of(drawn@),
            Seq::empty(),
            old(prng)@,
            draws as nat,
            tokens,
            modifier,
            *old(attempts) as nat,
        );
    }
    let start_pos = prng.word_pos();
    let start_attempts = *attempts;
    let mut reservoir = Reservoir::new();
    let mut drew: u32 = 0;
    assert(reservoir.ids() =~= Seq::<Seq<char>>::empty());
    proof {
        lemma_roll_spec(
            ids_of(drawn@),
            Seq::empty(),
            prng@,
            draws as nat,
            tokens,
            modifier,
            *attempts as nat,
        );
    }
    while drew < draws
        invariant
            drew <= draws,
            start_attempts == *old(attempts),
            old(prng)@ == (PrngModel { pos: start_pos, ..prng@ }),
            reservoir.wf(),
            reservoir.winners@.len() == drew,
            forall|i: int|
                0 <= i < reservoir.ids().len() ==> !has_token(
                    ids_of(drawn@),
                    #[trigger] reservoir.ids()[i],
                ),
            roll_spec(
                ids_of(drawn@),
                Seq::empty(),
                old(prng)@,
                draws as nat,
                tokens,
                modifier,
                *old(attempts) as nat,
            ) == roll_spec(
                ids_of(drawn@),
                reservoir.ids(),
                prng@,
                (draws - drew) as nat,
                tokens,
                modifier,
                *attempts as nat,
            ),
            roll_spec(
                ids_of(drawn@),
                Seq::empty(),
                old(prng)@,
                draws as nat,
                tokens,
                modifier,
                *old(attempts) as nat,
            ) matches Ok((all, _, _)) ==> all.len() == draws,
        decreases *attempts,
    {
        if tokens == 0 {
            prng.set_word_pos(start_pos);
            *attempts = start_attempts;
            return Err(EngineError::BadInput);
        }
        if *attempts == 0 {
            prng.set_word_pos(start_pos);
            *attempts = start_attempts;
            return Err(EngineError::LimitExceeded);
        }
        *attempts = *attempts - 1;
        let ghost before = prng@;
        let number = prng.next_u64() % (tokens as u64);
        let winner = number + modifier as u64;
        if winner > u32::MAX as u64 {
            prng.set_word_pos(start_pos);
            *attempts = start_attempts;
            return Err(EngineError::LimitExceeded);
        }
        let winner_str = decimal_string(winner);
        assert(winner == drawn_token(before, tokens, modifier));
        if !contains_token(drawn, &winner_str) && !contains_token(&reservoir.winners, &winner_str) {
            let ghost ids = reservoir.ids();
            reservoir.insert(winner_str);
            assert(reservoir.ids() =~= ids.push(decimal(winner as nat)));
            drew += 1;
        }
    }
    Ok(reservoir)
}

/// How many of the picks of a raffle go to the partner collection.
pub open spec fn partner_share(num_picks: u32, partner_percent: u8) -> int {
    (num_picks * partner_percent) / 100
}

/// What a raffle gives.
pub struct RaffleOutcome {
    /// The number of the round.
    pub round: u16,
    /// The skulls that won.
    pub skulls: Seq<Seq<char>>,
    /// The partner tokens that won.
    pub partner: Seq<Seq<char>>,
    /// The seed of the next raffle.
    pub seed: Seq<u8>,
}

impl Raffle {
    /// The invariant of the raffles: there is a round for each number up to
    /// the last one drawn; the winners of every round are in a well-formed
    /// reservoir and counted; and the redeemed claims are counted.
    pub open spec fn wf(&self) -> bool {
        &&& match self.roll.round {
            Some(r) => self.rounds@.len() == r + 1,
            None => self.rounds@.len() == 0,
        }
        &&& self.roll.claimed == self.redeemed@.len()
        &&& forall|r: int|
            0 <= r < self.rounds@.len() ==> {
                let round = #[trigger] self.rounds@[r];
                &&& round.skulls.wf()
                &&& round.partner.wf()
                &&& round.counts.skulls == round.skulls.winners@.len()
                &&& round.counts.partner == round.partner.winners@.len()
            }
    }

    /// What a raffle gives: the skulls are drawn first, then the partner
    /// tokens, then the seed of the next raffle. The generator is made of
    /// the seed and of what the message brings: block height, block time,
    /// sender and entropy.
    pub open spec fn raffle_spec(
        &self,
        num_picks: u32,
        partner_percent: u8,
        block_height: u64,
        block_time: u64,
        sender: Seq<u8>,
        entropy: Seq<u8>,
        max_attempts: u64,
    ) -> Result<RaffleOutcome, EngineError> {
        if self.roll.round == Some(u16::MAX) {
            Err(EngineError::LimitExceeded)
        } else if partner_percent > 100 {
            Err(EngineError::BadPercent)
        } else {
            let round: u16 = match self.roll.round {
                Some(r) => (r + 1) as u16,
                None => 0,
            };
            let partner_cnt = partner_share(num_picks, partner_percent);
            let skull_cnt = num_picks - partner_cnt;
            let prng = PrngModel {
                seed: self.prng_seed@,
                entropy: extended_entropy(block_height, block_time, sender, entropy),
                pos: 0,
            };
            match roll_spec(
                ids_of(self.drawn_skulls@),
                Seq::empty(),
                prng,
                skull_cnt as nat,
                SKULL_COUNT,
                0,
                max_attempts as nat,
            ) {
                Err(e) => Err(e),
                Ok((skulls, after_skulls, left)) => match roll_spec(
                    ids_of(self.drawn_partner@),
                    Seq::empty(),
                    after_skulls,
                    partner_cnt as nat,
                    self.roll.num_tokens,
                    if self.roll.start_one {
                        1
                    } else {
                        0
                    },
                    left,
                ) {
                    Err(e) => Err(e),
                    Ok((partner, after_partner, _)) => Ok(
                        RaffleOutcome {
                            round,
                            skulls,
                            partner,
                            seed: after_partner.peek_bytes(),
                        },
                    ),
                },
            }
        }
    }

    /// Whether `after` is this contract with a round drawn: the round is the
    /// last, its reservoirs hold the winners, who count as drawn; the seed is
    /// the new one; and nothing else differs.
    pub open spec fn drew(&self, after: Raffle, outcome: RaffleOutcome) -> bool {
        &&& after.roll == (RollConfig { round: Some(outcome.round), ..self.roll })
        &&& after.prng_seed@ == outcome.seed
        &&& after.redeemed == self.redeemed
        &&& after.admins == self.admins
        &&& after.skulls_address == self.skulls_address
        &&& after.partner_address == self.partner_address
        &&& ids_of(after.drawn_skulls@) == ids_of(self.drawn_skulls@) + outcome.skulls
        &&& ids_of(after.drawn_partner@) == ids_of(self.drawn_partner@) + outcome.partner
        &&& after.rounds@.len() == self.rounds@.len() + 1
        &&& after.rounds@.subrange(0, self.rounds@.len() as int) == self.rounds@
        &&& after.rounds@.last().skulls.ids() == outcome.skulls
        &&& after.rounds@.last().partner.ids() == outcome.partner
        &&& after.rounds@.last().counts == (Counts {
            skulls: outcome.skulls.len() as u32,
            partner: outcome.partner.len() as u32,
        })
    }

    /// Draws the winners of the next round: `num_picks` tokens, of which
    /// `partner_percent` percent, rounded down, are partner tokens and the
    /// rest skulls. No token wins that won in any earlier round. At most
    /// `max_attempts` tokens are drawn; a raffle that needs more fails. A
    /// raffle that fails changes nothing.
    pub fn raffle(
        &mut self,
        num_picks: u32,
        partner_percent: u8,
        block_height: u64,
        block_time: u64,
        sender: &Vec<u8>,
        entropy: &Vec<u8>,
        max_attempts: u64,
    ) -> (out: Result<Counts, EngineError>)
        requires
            old(self).wf(),
        ensures
            final(self).wf(),
            match old(self).raffle_spec(
                num_picks,
                partner_percent,
                block_height,
                block_time,
                sender@,
                entropy@,
                max_attempts,
            ) {
                Err(e) => out == Err::<Counts, EngineError>(e) && *final(self) == *old(self),
                Ok(outcome) => out == Ok::<Counts, EngineError>(
                    Counts {
                        skulls: outcome.skulls.len() as u32,
                        partner: outcome.partner.len() as u32,
                    },
                ) && outcome.skulls.len() + outcome.partner.len() == num_picks
                    && outcome.partner.len() == partner_share(num_picks, partner_percent) && old(self).drew(*final(self), outcome),
            },
    {
        let round: u16 = match self.roll.round {
            Some(r) => {
                if r == u16::MAX {
                    return Err(EngineError::LimitExceeded);
                }
                r + 1
            },
            None => 0,
        };
        if partner_percent > 100 {
            return Err(EngineError::BadPercent);
        }
        assert((num_picks as int) * (partner_percent as int) <= 100 * (num_picks as int))
            by (nonlinear_arith)
            requires
                partner_percent <= 100,
                num_picks >= 0,
        ;
        let share: u64 = (num_picks as u64) * (partner_percent as u64) / 100;
        assert(share == partner_share(num_picks, partner_percent));
        let ptnr_cnt: u32 = share as u32;
        let skull_cnt: u32 = num_picks - ptnr_cnt;
        let rng_entropy = extend_entropy(block_height, block_time, sender, entropy);
        let mut seed: Vec<u8> = Vec::new();
        let mut i: usize = 0;
        while i < self.prng_seed.len()
            invariant
                i <= self.prng_seed.len(),
                seed@ =~= self.prng_seed@.subrange(0, i as int),
            decreases self.prng_seed.len() - i,
        {
            seed.push(self.prng_seed[i]);
            i += 1;
        }
        assert(self.prng_seed@.subrange(0, self.prng_seed@.len() as int) =~= self.prng_seed@);
        let mut prng = Prng::new(seed, rng_entropy);
        let mut attempts = max_attempts;
        let skulls = match roll(
            &self.drawn_skulls,
            &mut prng,
            skull_cnt,
            SKULL_COUNT,
            0,
            &mut attempts,
        ) {
            Ok(r) => r,
            Err(e) => {
                return Err(e);
            },
        };
        let modifier: u32 = if self.roll.start_one {
            1
        } else {
            0
        };
        let partner = match roll(
            &self.drawn_partner,
            &mut prng,
            ptnr_cnt,
            self.roll.num_tokens,
            modifier,
            &mut attempts,
        ) {
            Ok(r) => r,
            Err(e) => {
                return Err(e);
            },
        };
        let new_seed = prng.rand_bytes();
        let mut seed_bytes: Vec<u8> = Vec::new();
        let mut b: usize = 0;
        while b < 32
            invariant
                b <= 32,
                seed_bytes@ =~= new_seed@.subrange(0, b as int),
            decreases 32 - b,
        {
            seed_bytes.push(new_seed[b]);
            b += 1;
        }
        assert(new_seed@.subrange(0, 32) =~= new_seed@);
        self.prng_seed = seed_bytes;
        append_tokens(&mut self.drawn_skulls, &skulls.winners);
        append_tokens(&mut self.drawn_partner, &partner.winners);
        let counts = Counts { skulls: skull_cnt, partner: ptnr_cnt };
        let ghost rounds = self.rounds@;
        self.rounds.push(Round { counts, skulls, partner });
        self.roll.round = Some(round);
        proof {
            assert(self.rounds@.subrange(0, rounds.len() as int) =~= rounds);
            assert forall|r: int| 0 <= r < self.rounds@.len() implies ({
                let round = #[trigger] self.rounds@[r];
                &&& round.skulls.wf()
                &&& round.partner.wf()
                &&& round.counts.skulls == round.skulls.winners@.len()
                &&& round.counts.partner == round.partner.winners@.len()
            }) by {
                if r < rounds.len() {
                    assert(self.rounds@[r] == old(self).rounds@[r]);
                }
            }
        }
        Ok(counts)
    }
}

/// Appends copies of token ids to a list.
pub fn append_tokens(list: &mut Vec<String>, more: &Vec<String>)
    ensures
        ids_of(final(list)@) == ids_of(old(list)@) + ids_of(more@),
        final(list)@.len() == old(list)@.len() + more@.len(),
        final(list)@.subrange(0, old(list)@.len() as int) == old(list)@,
{
    let mut i: usize = 0;
    while i < more.len()
        invariant
            i <= more.len(),
            list@.len() == old(list)@.len() + i,
            list@.subrange(0, old(list)@.len() as int) =~= old(list)@,
            forall|k: int| 0 <= k < i ==> (#[trigger] list@[old(list)@.len() + k])@ == more@[k]@,
        decreases more.len() - i,
    {
        list.push(more[i].clone());
        i += 1;
    }
    assert(ids_of(list@) =~= ids_of(old(list)@) + ids_of(more@)) by {
        assert forall|k: int| 0 <= k < list@.len() implies ids_of(list@)[k] == (ids_of(
            old(list)@,
        ) + ids_of(more@))[k] by {
            if k < old(list)@.len() {
                assert(list@.subrange(0, old(list)@.len() as int)[k] == old(list)@[k]);
            } else {
                assert(list@[old(list)@.len() + (k - old(list)@.len())]@ == more@[k - old(list)@.len()]@);
            }
        }
    }
}

/// What is left of the winners after a list of tokens tried to redeem, in
/// order, and the tokens that did redeem. A token redeems where it is a
/// winner when its turn comes; the last winner then takes its place.
pub open spec fn redeem_spec(winners: Seq<Seq<char>>, tokens: Seq<Seq<char>>) -> (
    Seq<Seq<char>>,
    Seq<Seq<char>>,
)
    decreases tokens.len(),
{
    if tokens.len() == 0 {
        (winners, Seq::empty())
    } else {
        let (left, redeemed) = redeem_spec(winners, tokens.drop_last());
        match position(left, tokens.last()) {
            Some(i) => (swap_removed(left, i), redeemed.push(tokens.last())),
            None => (left, redeemed),
        }
    }
}

/// The name under which the skull collection is shown.
pub open spec fn skulls_name() -> Seq<char> {
    "Mystic Skulls"@
}

/// The memo of the potion minted for a claim.
pub open spec fn claim_memo(collection: Seq<char>, token_id: Seq<char>) -> Seq<char> {
    "Claimed with "@ + collection + " "@ + token_id
}

/// The tokens that redeemed a claim, and a memo for the potion of each.
#[derive(Clone, Debug, PartialEq, Eq)]
pub struct Redemption {
    pub redeemed: Vec<String>,
    pub memos: Vec<String>,
}

impl Raffle {
    /// Why tokens sent by a collection cannot redeem, if they cannot.
    pub open spec fn receive_error(&self, collection: Seq<u8>) -> Option<EngineError> {
        if self.roll.halted {
            Some(EngineError::Halted)
        } else if self.roll.round.is_none() {
            Some(EngineError::NoRound)
        } else if collection != self.skulls_address@ && collection != self.partner_address@ {
            Some(EngineError::UnknownContract)
        } else if self.roll.claimed + self.rounds@.last().counts.skulls
            + self.rounds@.last().counts.partner > u32::MAX {
            Some(EngineError::LimitExceeded)
        } else {
            None
        }
    }

    /// Redeems the claims of the tokens that a collection sent: every token
    /// that is a winner of the last round, and has not redeemed, redeems,
    /// once. The tokens of no other collection than the two of the raffle are
    /// taken. Tokens that are no winners are passed over.
    pub fn try_batch_receive_nft(&mut self, collection: &Vec<u8>, from: &Vec<u8>, token_ids: &Vec<String>) -> (out:
        Result<Redemption, EngineError>)
        requires
            old(self).wf(),
        ensures
            final(self).wf(),
            match old(self).receive_error(collection@) {
                Some(e) => out == Err::<Redemption, EngineError>(e) && *final(self) == *old(self),
                None => out matches Ok(redemption) && {
                    let is_skull = collection@ == old(self).skulls_address@;
                    let before = if is_skull {
                        old(self).rounds@.last().skulls
                    } else {
                        old(self).rounds@.last().partner
                    };
                    let after = if is_skull {
                        final(self).rounds@.last().skulls
                    } else {
                        final(self).rounds@.last().partner
                    };
                    let (left, redeemed) = redeem_spec(before.ids(), ids_of(token_ids@));
                    let name = if is_skull {
                        skulls_name()
                    } else {
                        old(self).roll.partner@
                    };
                    &&& after.ids() == left
                    &&& ids_of(redemption.redeemed@) == redeemed
                    &&& left.len() + redeemed.len() == before.ids().len()
                    &&& redemption.memos@.len() == redeemed.len()
                    &&& forall|k: int|
                        0 <= k < redeemed.len() ==> (#[trigger] redemption.memos@[k])@
                            == claim_memo(name, redeemed[k])
                    &&& final(self).roll.claimed == old(self).roll.claimed + redeemed.len()
                    &&& final(self).roll.round == old(self).roll.round
                    &&& final(self).roll.halted == old(self).roll.halted
                    &&& final(self).roll.partner == old(self).roll.partner
                    &&& final(self).roll.num_tokens == old(self).roll.num_tokens
                    &&& final(self).roll.start_one == old(self).roll.start_one
                    &&& final(self).skulls_address == old(self).skulls_address
                    &&& final(self).partner_address == old(self).partner_address
                    &&& final(self).prng_seed == old(self).prng_seed
                    &&& final(self).admins == old(self).admins
                    &&& final(self).drawn_skulls == old(self).drawn_skulls
                    &&& final(self).drawn_partner == old(self).drawn_partner
                    &&& final(self).rounds@.len() == old(self).rounds@.len()
                    &&& forall|r: int|
                        0 <= r < old(self).rounds@.len() - 1 ==> final(self).rounds@[r] == old(self).rounds@[r]
                    &&& (if is_skull {
                        final(self).rounds@.last().partner == old(self).rounds@.last().partner
                    } else {
                        final(self).rounds@.last().skulls == old(self).rounds@.last().skulls
                    })
                    &&& final(self).redeemed@.len() == old(self).redeemed@.len() + redeemed.len()
                    &&& final(self).redeemed@.subrange(0, old(self).redeemed@.len() as int) == old(self).redeemed@
                    &&& forall|k: int|
                        0 <= k < redeemed.len() ==> {
                            let entry = #[trigger] final(self).redeemed@[old(self).redeemed@.len()
                                + k];
                            entry.is_skull == is_skull && entry.token_id@ == redeemed[k]
                                && entry.owner@ == from@ && Some(entry.round) == old(self).roll.round
                        }
                },
            },
    {
        if self.roll.halted {
            return Err(EngineError::Halted);
        }
        let round = match self.roll.round {
            Some(r) => r,
            None => {
                return Err(EngineError::NoRound);
            },
        };
        let is_skull = bytes_eq(collection, &self.skulls_address);
        if !is_skull && !bytes_eq(collection, &self.partner_address) {
            return Err(EngineError::UnknownContract);
        }
        let r = round as usize;
        let counts = self.rounds[r].counts;
        assert(self.rounds@.last() == self.rounds@[r as int]);
        if self.roll.claimed as u64 + counts.skulls as u64 + counts.partner as u64 > u32::MAX as u64 {
            return Err(EngineError::LimitExceeded);
        }
        let coll_name = if is_skull {
            String::from_str("Mystic Skulls")
        } else {
            self.roll.partner.clone()
        };
        let ghost start = if is_skull {
            self.rounds@[r as int].skulls
        } else {
            self.rounds@[r as int].partner
        };
        let ghost name = coll_name@;
        let mut redeemed: Vec<String> = Vec::new();
        let mut memos: Vec<String> = Vec::new();
        let mut i: usize = 0;
        assert(ids_of(token_ids@).subrange(0, 0) =~= Seq::<Seq<char>>::empty());
        assert(ids_of(redeemed@) =~= Seq::<Seq<char>>::empty());
        while i < token_ids.len()
            invariant
                i <= token_ids.len(),
                self.wf(),
                old(self).wf(),
                r == round,
                self.roll.round == Some(round),
                old(self).roll.round == Some(round),
                self.roll.halted == old(self).roll.halted,
                self.roll.partner == old(self).roll.partner,
                self.roll.num_tokens == old(self).roll.num_tokens,
                self.roll.start_one == old(self).roll.start_one,
                self.prng_seed == old(self).prng_seed,
                self.admins == old(self).admins,
                self.skulls_address == old(self).skulls_address,
                self.partner_address == old(self).partner_address,
                self.drawn_skulls == old(self).drawn_skulls,
                self.drawn_partner == old(self).drawn_partner,
                self.rounds@.len() == old(self).rounds@.len(),
                forall|x: int|
                    0 <= x < old(self).rounds@.len() - 1 ==> self.rounds@[x] == old(self).rounds@[x],
                start == (if is_skull {
                    old(self).rounds@[r as int].skulls
                } else {
                    old(self).rounds@[r as int].partner
                }),
                if is_skull {
                    self.rounds@[r as int].partner == old(self).rounds@[r as int].partner
                } else {
                    self.rounds@[r as int].skulls == old(self).rounds@[r as int].skulls
                },
                name == coll_name@,
                ({
                    let now = if is_skull {
                        self.rounds@[r as int].skulls
                    } else {
                        self.rounds@[r as int].partner
                    };
                    let (left, done) = redeem_spec(
                        start.ids(),
                        ids_of(token_ids@).subrange(0, i as int),
                    );
                    &&& now.ids() == left
                    &&& ids_of(redeemed@) == done
                    &&& left.len() + done.len() == start.ids().len()
                }),
                memos@.len() == redeemed@.len(),
                forall|k: int|
                    0 <= k < redeemed@.len() ==> (#[trigger] memos@[k])@ == claim_memo(
                        name,
                        ids_of(redeemed@)[k],
                    ),
                self.roll.claimed == old(self).roll.claimed + redeemed@.len(),
                old(self).roll.claimed + start.ids().len() <= u32::MAX,
                self.redeemed@.len() == old(self).redeemed@.len() + redeemed@.len(),
                self.redeemed@.subrange(0, old(self).redeemed@.len() as int) =~= old(self).redeemed@,
                forall|k: int|
                    0 <= k < redeemed@.len() ==> {
                        let entry = #[trigger] self.redeemed@[old(self).redeemed@.len() + k];
                        entry.is_skull == is_skull && entry.token_id@ == ids_of(redeemed@)[k]
                            && entry.owner@ == from@ && entry.round == round
                    },
            decreases token_ids.len() - i,
        {
            let id = &token_ids[i];
            let ghost upto = ids_of(token_ids@).subrange(0, i + 1);
            let ghost prior = ids_of(redeemed@);
            let ghost rounds = self.rounds@;
            let ghost pool = if is_skull {
                self.rounds@[r as int].skulls
            } else {
                self.rounds@[r as int].partner
            };
            proof {
                assert(upto.drop_last() =~= ids_of(token_ids@).subrange(0, i as int));
                assert(upto.last() == id@);
                lemma_index_is_position(pool, id@);
            }
            let won = if is_skull {
                self.rounds[r].skulls.consume(id)
            } else {
                self.rounds[r].partner.consume(id)
            };
            if won {
                redeemed.push(id.clone());
                let memo = String::from_str("Claimed with ").concat(coll_name.as_str()).concat(
                    " ",
                ).concat(id.as_str());
                memos.push(memo);
                let mut owner: Vec<u8> = Vec::new();
                let mut b: usize = 0;
                while b < from.len()
                    invariant
                        b <= from.len(),
                        owner@ =~= from@.subrange(0, b as int),
                    decreases from.len() - b,
                {
                    owner.push(from[b]);
                    b += 1;
                }
                assert(from@.subrange(0, from@.len() as int) =~= from@);
                self.redeemed.push(StoredRedeem { is_skull, token_id: id.clone(), owner, round });
                self.roll.claimed = self.roll.claimed + 1;
                if is_skull {
                    self.rounds[r].counts.skulls = self.rounds[r].counts.skulls - 1;
                } else {
                    self.rounds[r].counts.partner = self.rounds[r].counts.partner - 1;
                }
                proof {
                    assert(ids_of(redeemed@) =~= prior.push(id@));
                }
            }
            proof {
                assert forall|x: int| 0 <= x < self.rounds@.len() implies ({
                    let round = #[trigger] self.rounds@[x];
                    &&& round.skulls.wf()
                    &&& round.partner.wf()
                    &&& round.counts.skulls == round.skulls.winners@.len()
                    &&& round.counts.partner == round.partner.winners@.len()
                }) by {
                    if x != r {
                        assert(self.rounds@[x] == rounds[x]);
                    }
                }
                let now = if is_skull {
                    self.rounds@[r as int].skulls
                } else {
                    self.rounds@[r as int].partner
                };
                match crate::reservoir::index_of(pool.map@, id@) {
                    Some(ix) => {
                        crate::reservoir::lemma_index_finds_winners(pool, id@);
                        assert(now.winners@ == swap_removed(pool.winners@, ix as int));
                        assert(now.ids() =~= swap_removed(pool.ids(), ix as int));
                    },
                    None => {
                        assert(now.ids() == pool.ids());
                    },
                }
            }
            i += 1;
        }
        assert(ids_of(token_ids@).subrange(0, token_ids@.len() as int) =~= ids_of(token_ids@));
        Ok(Redemption { redeemed, memos })
    }
}

/// The winners of a round that have not redeemed, by page.
#[derive(Clone, Debug, PartialEq, Eq)]
pub struct Redeemable {
    pub halted: bool,
    pub round: u16,
    pub collection: String,
    /// How many winners of the round have not redeemed.
    pub count: u32,
    /// The winners of the page.
    pub token_ids: Vec<String>,
}

/// The tokens of a list that are in another list, in their order.
pub open spec fn winners_among(winners: Seq<Seq<char>>, tokens: Seq<String>, n: int) -> Seq<
    String,
>
    decreases n,
{
    if n <= 0 {
        Seq::empty()
    } else {
        let before = winners_among(winners, tokens, n - 1);
        if has_token(winners, tokens[n - 1]@) {
            before.push(tokens[n - 1])
        } else {
            before
        }
    }
}

impl Raffle {
    /// Whether an address is an admin.
    pub open spec fn is_admin(&self, address: Seq<u8>) -> bool {
        has_address(addresses(self.admins@), address)
    }

    /// Halts claims, or lets them go on; for an admin.
    pub fn try_set_halt(&mut self, sender: &Vec<u8>, halt: bool) -> (out: Result<bool, EngineError>)
        ensures
            match out {
                Ok(halted) => old(self).is_admin(sender@) && halted == halt && *final(self) == (
                Raffle { roll: RollConfig { halted: halt, ..old(self).roll }, ..*old(self) }),
                Err(e) => e == EngineError::Unauthorized && !old(self).is_admin(sender@)
                    && *final(self) == *old(self),
            },
    {
        match check_admin(&self.admins, sender) {
            Ok(_) => {},
            Err(e) => {
                return Err(e);
            },
        }
        self.roll.halted = halt;
        Ok(halt)
    }

    /// Draws the winners of the next round, for an admin.
    pub fn try_raffle(
        &mut self,
        sender: &Vec<u8>,
        sender_addr: &Vec<u8>,
        num_picks: u32,
        partner_percent: u8,
        block_height: u64,
        block_time: u64,
        entropy: &Vec<u8>,
        max_attempts: u64,
    ) -> (out: Result<Counts, EngineError>)
        requires
            old(self).wf(),
        ensures
            final(self).wf(),
            final(self).admins == old(self).admins,
            if !old(self).is_admin(sender@) {
                out == Err::<Counts, EngineError>(EngineError::Unauthorized) && *final(self) == *old(self)
            } else {
                match old(self).raffle_spec(
                    num_picks,
                    partner_percent,
                    block_height,
                    block_time,
                    sender_addr@,
                    entropy@,
                    max_attempts,
                ) {
                    Err(e) => out == Err::<Counts, EngineError>(e) && *final(self) == *old(self),
                    Ok(outcome) => out == Ok::<Counts, EngineError>(
                        Counts {
                            skulls: outcome.skulls.len() as u32,
                            partner: outcome.partner.len() as u32,
                        },
                    ) && outcome.skulls.len() + outcome.partner.len() == num_picks
                        && outcome.partner.len() == partner_share(num_picks, partner_percent)
                        && old(self).drew(*final(self), outcome),
                }
            },
    {
        match check_admin(&self.admins, sender) {
            Ok(_) => {},
            Err(e) => {
                return Err(e);
            },
        }
        self.raffle(
            num_picks,
            partner_percent,
            block_height,
            block_time,
            sender_addr,
            entropy,
            max_attempts,
        )
    }

    /// A page of the winners of a round that have not redeemed, for one of
    /// the collections: `page_size` winners (else 100) from the start of page
    /// `page` (else the first), or as many as are left. The round is the one
    /// asked for, else the last.
    pub fn query_redeemable(
        &self,
        is_skulls: bool,
        round: Option<u16>,
        page: Option<u32>,
        page_size: Option<u32>,
    ) -> (out: Result<Redeemable, EngineError>)
        requires
            self.wf(),
        ensures
            match self.roll.round {
                None => out == Err::<Redeemable, EngineError>(EngineError::NoRound),
                Some(last) => {
                    let asked = match round {
                        Some(r) => r,
                        None => last,
                    };
                    if asked > last {
                        out == Err::<Redeemable, EngineError>(EngineError::StorageCorrupt)
                    } else {
                        out matches Ok(shown) && {
                            let pool = if is_skulls {
                                self.rounds@[asked as int].skulls
                            } else {
                                self.rounds@[asked as int].partner
                            };
                            let limit = match page_size {
                                Some(l) => l as int,
                                None => 100,
                            };
                            let start = (match page {
                                Some(p) => p as int,
                                None => 0,
                            }) * limit;
                            let end = crate::registry_query::page_end(
                                start,
                                limit,
                                pool.winners@.len() as int,
                            );
                            &&& shown.halted == self.roll.halted
                            &&& shown.round == asked
                            &&& shown.collection@ == (if is_skulls {
                                skulls_name()
                            } else {
                                self.roll.partner@
                            })
                            &&& shown.count == pool.winners@.len()
                            &&& shown.token_ids@.len() == (if start < end {
                                end - start
                            } else {
                                0
                            })
                            &&& forall|k: int|
                                0 <= k < shown.token_ids@.len() ==> #[trigger] shown.token_ids@[k]
                                    == pool.winners@[start + k]
                        }
                    }
                },
            },
    {
        let last = match self.roll.round {
            Some(r) => r,
            None => {
                return Err(EngineError::NoRound);
            },
        };
        let asked = match round {
            Some(r) => r,
            None => last,
        };
        if asked > last {
            return Err(EngineError::StorageCorrupt);
        }
        let entry = &self.rounds[asked as usize];
        let (pool, collection, count) = if is_skulls {
            (&entry.skulls, String::from_str("Mystic Skulls"), entry.counts.skulls)
        } else {
            (&entry.partner, self.roll.partner.clone(), entry.counts.partner)
        };
        let limit: u64 = match page_size {
            Some(l) => l as u64,
            None => 100,
        };
        let page: u64 = match page {
            Some(p) => p as u64,
            None => 0,
        };
        assert(page * limit <= 0xffff_ffff * 0xffff_ffff) by (nonlinear_arith)
            requires
                page <= 0xffff_ffff,
                limit <= 0xffff_ffff,
        ;
        let start: u64 = page * limit;
        let total: u64 = pool.winners.len() as u64;
        let end: u64 = if start + limit < total {
            start + limit
        } else {
            total
        };
        let mut token_ids: Vec<String> = Vec::new();
        let mut idx: u64 = start;
        while idx < end
            invariant
                end <= pool.winners@.len(),
                pool.winners@.len() <= usize::MAX,
                start <= idx,
                start < end ==> idx <= end,
                start >= end ==> idx == start,
                token_ids@.len() == idx - start,
                forall|k: int|
                    0 <= k < token_ids@.len() ==> #[trigger] token_ids@[k] == pool.winners@[start
                        + k],
            decreases end - idx,
        {
            token_ids.push(pool.winners[idx as usize].clone());
            idx += 1;
        }
        Ok(Redeemable { halted: self.roll.halted, round: asked, collection, count, token_ids })
    }

    /// Which tokens of two lists are winners of the last round that have
    /// not redeemed: first of the skulls, then of the partner tokens.
    pub fn query_which(&self, skulls: &Vec<String>, partner: &Vec<String>) -> (out: Result<
        (bool, Vec<String>, Vec<String>),
        EngineError,
    >)
        requires
            self.wf(),
        ensures
            match self.roll.round {
                None => out == Err::<(bool, Vec<String>, Vec<String>), EngineError>(
                    EngineError::NoRound,
                ),
                Some(last) => out matches Ok(shown) && shown.0 == self.roll.halted && shown.1@
                    == winners_among(
                    self.rounds@[last as int].skulls.ids(),
                    skulls@,
                    skulls@.len() as int,
                ) && shown.2@ == winners_among(
                    self.rounds@[last as int].partner.ids(),
                    partner@,
                    partner@.len() as int,
                ),
            },
    {
        let last = match self.roll.round {
            Some(r) => r,
            None => {
                return Err(EngineError::NoRound);
            },
        };
        let entry = &self.rounds[last as usize];
        let won_skulls = pick_winners(&entry.skulls, skulls);
        let won_partner = pick_winners(&entry.partner, partner);
        Ok((self.roll.halted, won_skulls, won_partner))
    }

    /// The number of redeemed claims and a page of them: `page_size` claims
    /// (else 30) from the start of page `page` (else the first), or as many
    /// as are left.
    pub fn query_claimed(&self, page: Option<u32>, page_size: Option<u32>) -> (out: (u32, Vec<Claim>))
        requires
            self.wf(),
        ensures
            out.0 == self.roll.claimed,
            ({
                let limit = match page_size {
                    Some(l) => l as int,
                    None => 30,
                };
                let start = (match page {
                    Some(p) => p as int,
                    None => 0,
                }) * limit;
                let end = crate::registry_query::page_end(
                    start,
                    limit,
                    self.redeemed@.len() as int,
                );
                &&& out.1@.len() == (if start < end {
                    end - start
                } else {
                    0
                })
                &&& forall|k: int|
                    0 <= k < out.1@.len() ==> {
                        let claim = #[trigger] out.1@[k];
                        let kept = self.redeemed@[start + k];
                        &&& claim.token_id == kept.token_id
                        &&& claim.owner@ == kept.owner@
                        &&& claim.round == kept.round
                        &&& claim.collection@ == (if kept.is_skull {
                            skulls_name()
                        } else {
                            self.roll.partner@
                        })
                    }
            }),
    {
        let limit: u64 = match page_size {
            Some(l) => l as u64,
            None => 30,
        };
        let page: u64 = match page {
            Some(p) => p as u64,
            None => 0,
        };
        assert(page * limit <= 0xffff_ffff * 0xffff_ffff) by (nonlinear_arith)
            requires
                page <= 0xffff_ffff,
                limit <= 0xffff_ffff,
        ;
        let start: u64 = page * limit;
        let kept_len = self.redeemed.len();
        let total: u64 = self.roll.claimed as u64;
        let end: u64 = if start + limit < total {
            start + limit
        } else {
            total
        };
        let mut claims: Vec<Claim> = Vec::new();
        let mut idx: u64 = start;
        while idx < end
            invariant
                end <= self.redeemed@.len(),
                self.redeemed@.len() <= usize::MAX,
                start <= idx,
                start < end ==> idx <= end,
                start >= end ==> idx == start,
                claims@.len() == idx - start,
                forall|k: int|
                    0 <= k < claims@.len() ==> {
                        let claim = #[trigger] claims@[k];
                        let kept = self.redeemed@[start + k];
                        &&& claim.token_id == kept.token_id
                        &&& claim.owner@ == kept.owner@
                        &&& claim.round == kept.round
                        &&& claim.collection@ == (if kept.is_skull {
                            skulls_name()
                        } else {
                            self.roll.partner@
                        })
                    },
            decreases end - idx,
        {
            let kept = &self.redeemed[idx as usize];
            let collection = if kept.is_skull {
                String::from_str("Mystic Skulls")
            } else {
                self.roll.partner.clone()
            };
            claims.push(
                Claim {
                    collection,
                    token_id: kept.token_id.clone(),
                    owner: crate::registry_edit::copy_bytes(&kept.owner),
                    round: kept.round,
                },
            );
            idx += 1;
        }
        (self.roll.claimed, claims)
    }
}

/// The tokens of a list that are winners of a reservoir.
pub fn pick_winners(pool: &Reservoir, tokens: &Vec<String>) -> (won: Vec<String>)
    requires
        pool.wf(),
    ensures
        won@ == winners_among(pool.ids(), tokens@, tokens@.len() as int),
{
    let mut won: Vec<String> = Vec::new();
    let mut i: usize = 0;
    while i < tokens.len()
        invariant
            i <= tokens.len(),
            pool.wf(),
            won@ == winners_among(pool.ids(), tokens@, i as int),
        decreases tokens.len() - i,
    {
        if pool.lookup(&tokens[i]).is_some() {
            won.push(tokens[i].clone());
        }
        i += 1;
    }
    won
}

/// What a raffle gives, and with it the seed that it leaves, depends on
/// nothing but the seed, the settings, the tokens drawn before and what the
/// message brings: two contracts that agree in those draw the same.
pub proof fn lemma_raffle_is_determined(
    a: Raffle,
    b: Raffle,
    num_picks: u32,
    partner_percent: u8,
    block_height: u64,
    block_time: u64,
    sender: Seq<u8>,
    entropy: Seq<u8>,
    max_attempts: u64,
)
    requires
        a.prng_seed@ == b.prng_seed@,
        a.roll.round == b.roll.round,
        a.roll.num_tokens == b.roll.num_tokens,
        a.roll.start_one == b.roll.start_one,
        ids_of(a.drawn_skulls@) == ids_of(b.drawn_skulls@),
        ids_of(a.drawn_partner@) == ids_of(b.drawn_partner@),
    ensures
        a.raffle_spec(
            num_picks,
            partner_percent,
            block_height,
            block_time,
            sender,
            entropy,
            max_attempts,
        ) == b.raffle_spec(
            num_picks,
            partner_percent,
            block_height,
            block_time,
            sender,
            entropy,
            max_attempts,
        ),
{
}

/// The partner collection of a raffle.
#[derive(Clone, Debug, PartialEq, Eq)]
pub struct PartnerInfo {
    /// The name of the collection.
    pub name: String,
    /// The address of its contract.
    pub contract: Vec<u8>,
    /// How many tokens it has.
    pub count: u32,
    /// Whether its token ids start at one; at zero where nothing is said.
    pub starts_at_one: Option<bool>,
}

impl Raffle {
    /// A new claim contract, with the seed that the entropy gives. No round
    /// was drawn, nothing is claimed, and claims are not halted. Its creator
    /// is an admin, with the other admins named.
    pub fn init(
        creator: &Vec<u8>,
        admins: &Vec<Vec<u8>>,
        skulls_address: Vec<u8>,
        partner: PartnerInfo,
        entropy: &Vec<u8>,
    ) -> (contract: Raffle)
        requires
            entropy@.len() <= usize::MAX / 2,
        ensures
            contract.wf(),
            addresses(contract.admins@) == with_addresses(seq![creator@], addresses(admins@)),
            contract.prng_seed@ == crate::prng::sha256(crate::prng::base64_text(entropy@)),
            contract.skulls_address == skulls_address,
            contract.partner_address == partner.contract,
            contract.roll == (RollConfig {
                claimed: 0,
                partner: partner.name,
                num_tokens: partner.count,
                start_one: partner.starts_at_one == Some(true),
                round: None,
                halted: false,
            }),
            contract.drawn_skulls@.len() == 0,
            contract.drawn_partner@.len() == 0,
            contract.rounds@.len() == 0,
            contract.redeemed@.len() == 0,
    {
        let lists = AuthLists::new(creator, admins);
        let seed = crate::prng::initial_seed(entropy);
        let mut prng_seed: Vec<u8> = Vec::new();
        let mut b: usize = 0;
        while b < 32
            invariant
                b <= 32,
                prng_seed@ =~= seed@.subrange(0, b as int),
            decreases 32 - b,
        {
            prng_seed.push(seed[b]);
            b += 1;
        }
        assert(seed@.subrange(0, 32) =~= seed@);
        let PartnerInfo { name, contract, count, starts_at_one } = partner;
        let start_one = match starts_at_one {
            Some(b) => b,
            None => false,
        };
        Raffle {
            admins: lists.admins,
            roll: RollConfig {
                claimed: 0,
                partner: name,
                num_tokens: count,
                start_one,
                round: None,
                halted: false,
            },
            prng_seed,
            skulls_address,
            partner_address: contract,
            drawn_skulls: Vec::new(),
            drawn_partner: Vec::new(),
            rounds: Vec::new(),
            redeemed: Vec::new(),
        }
    }

    /// Adds admins, or takes admins out of the list; for an admin. Returns
    /// whether the list changed.
    pub fn try_process_admins(&mut self, sender: &Vec<u8>, update_list: &Vec<Vec<u8>>, is_add: bool) -> (out:
        Result<bool, EngineError>)
        ensures
            final(self).roll == old(self).roll,
            final(self).prng_seed == old(self).prng_seed,
            final(self).skulls_address == old(self).skulls_address,
            final(self).partner_address == old(self).partner_address,
            final(self).drawn_skulls == old(self).drawn_skulls,
            final(self).drawn_partner == old(self).drawn_partner,
            final(self).rounds == old(self).rounds,
            final(self).redeemed == old(self).redeemed,
            match out {
                Ok(changed) => old(self).is_admin(sender@) && addresses(final(self).admins@) == (
                if is_add {
                    with_addresses(addresses(old(self).admins@), addresses(update_list@))
                } else {
                    without_addresses(addresses(old(self).admins@), addresses(update_list@))
                }) && changed == (final(self).admins@.len() != old(self).admins@.len()),
                Err(e) => e == EngineError::Unauthorized && !old(self).is_admin(sender@)
                    && *final(self) == *old(self),
            },
    {
        match check_admin(&self.admins, sender) {
            Ok(_) => {},
            Err(e) => {
                return Err(e);
            },
        }
        if is_add {
            Ok(add_addrs_to_auth(&mut self.admins, update_list))
        } else {
            Ok(remove_addrs_from_auth(&mut self.admins, update_list))
        }
    }
}

} // verus!
