//! The bonus of a first stake: which skulls earn it, and what it comes to.
use crate::ledger::{
    lemma_set_step, lemma_upsert, lemma_upsert_keeps_others, material_of, one_record_each,
    record_of, set_step, set_steps, skulls_differ, SetProgress, StakeRecord,
};
use crate::ownership::OwnedSkull;
use crate::error::EngineError;
use crate::staking::{cooled_down, StakeModel, StakingState};
use vstd::prelude::*;

verus! {

/// Whether skull `i` of a list earns the bonus of a first stake at `now`: by
/// the records kept before the stake, a full cooldown has passed since it
/// last gave a reward.
pub open spec fn earns_bonus(
    records: Seq<StakeRecord>,
    skulls: Seq<OwnedSkull>,
    i: int,
    user: Seq<u8>,
    now: u64,
    staking: StakingState,
) -> bool {
    cooled_down(now, record_of(records, skulls[i].id@, user, now).claim, staking.cooldown)
}

/// How many of the first `n` skulls of a list are of material `m` and earn
/// the bonus of a first stake.
pub open spec fn bonus_count(
    records: Seq<StakeRecord>,
    skulls: Seq<OwnedSkull>,
    n: int,
    user: Seq<u8>,
    now: u64,
    staking: StakingState,
    materials: nat,
    m: int,
) -> nat
    decreases n,
{
    if n <= 0 {
        0
    } else {
        bonus_count(records, skulls, n - 1, user, now, staking, materials, m) + (if earns_bonus(
            records,
            skulls,
            n - 1,
            user,
            now,
            staking,
        ) && material_of(skulls[n - 1].natural, staking.skull_idx, materials) == Ok::<
            int,
            EngineError,
        >(m) {
            1nat
        } else {
            0nat
        })
    }
}

/// Replacing or adding the record of a token leaves what is kept of every
/// other token.
pub proof fn lemma_upsert_keeps_record(
    records: Seq<StakeRecord>,
    token: Seq<char>,
    info: StakeModel,
    other: Seq<char>,
    user: Seq<u8>,
    now: u64,
)
    requires
        other != token,
    ensures
        record_of(crate::ledger::upsert(records, token, info), other, user, now) == record_of(
            records,
            other,
            user,
            now,
        ),
{
    lemma_upsert_keeps_others(records, token, info, other);
}

/// Staking skulls leaves what is kept of every token that is not among
/// them.
pub proof fn lemma_set_steps_keep_others(
    start: SetProgress,
    skulls: Seq<OwnedSkull>,
    n: int,
    user: Seq<u8>,
    now: u64,
    staking: StakingState,
    first: bool,
    token: Seq<char>,
)
    requires
        0 <= n <= skulls.len(),
        forall|i: int| 0 <= i < n ==> (#[trigger] skulls[i]).id@ != token,
    ensures
        set_steps(start, skulls, n, user, now, staking, first) matches Ok(p) ==> record_of(
            p.records,
            token,
            user,
            now,
        ) == record_of(start.records, token, user, now),
    decreases n,
{
    if n > 0 {
        lemma_set_steps_keep_others(start, skulls, n - 1, user, now, staking, first, token);
        match set_steps(start, skulls, n - 1, user, now, staking, first) {
            Ok(p) => {
                match set_step(p, skulls[n - 1], user, now, staking, first) {
                    Ok(q) => {
                        assert(skulls[n - 1].id@ != token);
                        let record = record_of(p.records, skulls[n - 1].id@, user, now);
                        let claim = if first && cooled_down(now, record.claim, staking.cooldown) {
                            now
                        } else {
                            record.claim
                        };
                        let stake = if record.addr != user {
                            now
                        } else {
                            record.stake
                        };
                        let info = StakeModel { addr: user, stake, claim };
                        assert(q.records == crate::ledger::upsert(
                            p.records,
                            skulls[n - 1].id@,
                            info,
                        ));
                        lemma_upsert_keeps_record(
                            p.records,
                            skulls[n - 1].id@,
                            info,
                            token,
                            user,
                            now,
                        );
                    },
                    Err(_) => {},
                }
            },
            Err(_) => {},
        }
    }
}

/// What a first stake comes to. Every skull that has cooled down adds one
/// charge to its own material and counts as claimed now; a skull that has
/// not adds nothing and keeps the time of its last claim. The skulls differ
/// from each other.
pub proof fn lemma_first_stake(
    start: SetProgress,
    skulls: Seq<OwnedSkull>,
    n: int,
    user: Seq<u8>,
    now: u64,
    staking: StakingState,
)
    requires
        0 <= n <= skulls.len(),
        skulls_differ(skulls),
        one_record_each(start.records),
    ensures
        set_steps(start, skulls, n, user, now, staking, true) matches Ok(p) ==> {
            &&& p.charges.len() == start.charges.len()
            &&& one_record_each(p.records)
            &&& forall|m: int|
                0 <= m < p.charges.len() ==> (#[trigger] p.charges[m]) == start.charges[m]
                    + bonus_count(
                    start.records,
                    skulls,
                    n,
                    user,
                    now,
                    staking,
                    start.charges.len(),
                    m,
                )
            &&& forall|i: int|
                0 <= i < n ==> record_of(p.records, (#[trigger] skulls[i]).id@, user, now).claim
                    == (if earns_bonus(start.records, skulls, i, user, now, staking) {
                    now
                } else {
                    record_of(start.records, skulls[i].id@, user, now).claim
                })
        },
    decreases n,
{
    if n > 0 {
        lemma_first_stake(start, skulls, n - 1, user, now, staking);
        match set_steps(start, skulls, n - 1, user, now, staking, true) {
            Ok(p) => {
                let skull = skulls[n - 1];
                lemma_set_steps_keep_others(
                    start,
                    skulls,
                    n - 1,
                    user,
                    now,
                    staking,
                    true,
                    skull.id@,
                );
                lemma_set_step(p, skull, user, now, staking, true);
                match set_step(p, skull, user, now, staking, true) {
                    Ok(q) => {
                        let record = record_of(p.records, skull.id@, user, now);
                        let bonus = cooled_down(now, record.claim, staking.cooldown);
                        assert(bonus == earns_bonus(start.records, skulls, n - 1, user, now, staking));
                        let claim = if bonus {
                            now
                        } else {
                            record.claim
                        };
                        let stake = if record.addr != user {
                            now
                        } else {
                            record.stake
                        };
                        let info = StakeModel { addr: user, stake, claim };
                        assert(q.records == crate::ledger::upsert(p.records, skull.id@, info));
                        lemma_upsert(p.records, skull.id@, info);
                        crate::ledger::lemma_record_position(q.records, skull.id@);
                        assert(record_of(q.records, skull.id@, user, now) == info);
                        assert forall|i: int| 0 <= i < n implies record_of(
                            q.records,
                            (#[trigger] skulls[i]).id@,
                            user,
                            now,
                        ).claim == (if earns_bonus(start.records, skulls, i, user, now, staking) {
                            now
                        } else {
                            record_of(start.records, skulls[i].id@, user, now).claim
                        }) by {
                            if i < n - 1 {
                                assert(skulls[i].id@ != skulls[n - 1].id@);
                                lemma_upsert_keeps_record(
                                    p.records,
                                    skull.id@,
                                    info,
                                    skulls[i].id@,
                                    user,
                                    now,
                                );
                            }
                        }
                    },
                    Err(_) => {},
                }
            },
            Err(_) => {},
        }
    }
}

} // verus!
