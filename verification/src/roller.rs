//! The reward roller: charges of staked skulls become ingredients, drawn
//! from the staking table of each skull's material.
use crate::error::EngineError;
use crate::prng::{Prng, PrngModel};
use crate::weights::{pick, pick_weighted, sum_weights, total_weight};
use crate::yields::{
    can_yield, lemma_no_charges, lemma_none_made, lemma_yield, most_rolls, sum_charges, sum_made,
};
use vstd::prelude::*;

verus! {

/// A named set of ingredients, by their indices.
#[derive(Clone, Debug, PartialEq, Eq)]
pub struct StoredIngrSet {
    pub name: String,
    pub list: Vec<u8>,
}

/// An ingredient set of a staking table, by its index, and its weight.
#[derive(Clone, Copy, Debug, PartialEq, Eq, Structural)]
pub struct StoredSetWeight {
    pub set: u8,
    pub weight: u16,
}

/// The numbers from 0 up to, and without, `n`.
pub open spec fn numbers_upto(n: nat) -> Seq<u8> {
    Seq::new(n, |i: int| i as u8)
}

/// The number that a generator draws from those below `n`: the first of
/// them after a shuffle.
pub open spec fn drawn_below(prng: PrngModel, n: nat) -> u8 {
    prng.peek_shuffle(numbers_upto(n))[0]
}

/// The generator after drawing from the numbers below `n`.
pub open spec fn after_draw_below(prng: PrngModel, n: nat) -> PrngModel {
    prng.after_shuffle(numbers_upto(n))
}

/// Draws a number below `n`, each as likely as the other: the numbers are
/// shuffled and the first is taken.
pub fn draw_below(prng: &mut Prng, n: u16) -> (drawn: u8)
    requires
        1 <= n <= 256,
    ensures
        drawn == drawn_below(old(prng)@, n as nat),
        final(prng)@ == after_draw_below(old(prng)@, n as nat),
        drawn < n,
{
    let mut list: Vec<u8> = Vec::new();
    let mut i: u16 = 0;
    while i < n
        invariant
            i <= n <= 256,
            list@.len() == i,
            forall|k: int| 0 <= k < i ==> list@[k] == k as u8,
        decreases n - i,
    {
        list.push(i as u8);
        i += 1;
    }
    assert(list@ =~= numbers_upto(n as nat));
    let ghost before = list@;
    prng.shuffle(&mut list);
    proof {
        // the first item after the shuffle is one of the numbers
        assert(list@.to_multiset().count(list@[0]) > 0) by {
            list@.to_multiset_ensures();
        }
        assert(before.to_multiset().count(list@[0]) > 0);
        before.to_multiset_ensures();
        assert(before.contains(list@[0]));
        let k = choose|k: int| 0 <= k < before.len() && before[k] == list@[0];
        assert(list@[0] == k as u8);
    }
    list[0]
}

/// The weights of a staking table.
pub open spec fn table_weights(table: Seq<StoredSetWeight>) -> Seq<u16> {
    Seq::new(table.len(), |i: int| table[i].weight)
}

/// The set that a drawn number wins from a staking table.
pub open spec fn winning_set(table: Seq<StoredSetWeight>, number: u64) -> u8 {
    table[pick(
        table_weights(table),
        (number as nat) % total_weight(table_weights(table)),
    ) as int].set
}

/// The wins of each set after a number of rolls on a staking table, and the
/// generator after the rolls. Every roll draws a number, which wins one set
/// of the table one more time.
pub open spec fn wins_after_rolls(
    prng: PrngModel,
    table: Seq<StoredSetWeight>,
    rolls: nat,
    wins: Seq<u64>,
) -> Result<(Seq<u64>, PrngModel), EngineError>
    decreases rolls,
{
    if rolls == 0 {
        Ok((wins, prng))
    } else {
        let set = winning_set(table, prng.peek_u64()) as int;
        if set >= wins.len() {
            Err(EngineError::StorageCorrupt)
        } else if wins[set] == u64::MAX {
            Err(EngineError::LimitExceeded)
        } else {
            wins_after_rolls(
                prng.after_u64(),
                table,
                (rolls - 1) as nat,
                wins.update(set, (wins[set] + 1) as u64),
            )
        }
    }
}

/// The weights of a staking table.
pub fn weights_of(table: &Vec<StoredSetWeight>) -> (weights: Vec<u16>)
    ensures
        weights@ == table_weights(table@),
{
    let mut weights: Vec<u16> = Vec::new();
    let mut i: usize = 0;
    while i < table.len()
        invariant
            i <= table.len(),
            weights@.len() == i,
            forall|k: int| 0 <= k < i ==> weights@[k] == table@[k].weight,
        decreases table.len() - i,
    {
        weights.push(table[i].weight);
        i += 1;
    }
    assert(weights@ =~= table_weights(table@));
    weights
}

/// Rolls on a staking table a number of times and counts the wins of each
/// set. The weights of the table must not sum to zero.
fn roll_sets(
    prng: &mut Prng,
    table: &Vec<StoredSetWeight>,
    rolls: u16,
    wins: &mut Vec<u64>,
) -> (done: Result<(), EngineError>)
    requires
        total_weight(table_weights(table@)) > 0,
    ensures
        final(wins)@.len() == old(wins)@.len(),
        final(prng)@.seed == old(prng)@.seed,
        final(prng)@.entropy == old(prng)@.entropy,
        match wins_after_rolls(old(prng)@, table@, rolls as nat, old(wins)@) {
            Ok((counted, end)) => done.is_ok() && final(wins)@ == counted && final(prng)@ == end,
            Err(e) => done == Err::<(), EngineError>(e),
        },
{
    let weights = weights_of(table);
    let total = sum_weights(&weights);
    let mut done: u16 = 0;
    while done < rolls
        invariant
            done <= rolls,
            weights@ == table_weights(table@),
            total == total_weight(weights@),
            total > 0,
            wins@.len() == old(wins)@.len(),
            prng@.seed == old(prng)@.seed,
            prng@.entropy == old(prng)@.entropy,
            wins_after_rolls(old(prng)@, table@, rolls as nat, old(wins)@) == wins_after_rolls(
                prng@,
                table@,
                (rolls - done) as nat,
                wins@,
            ),
        decreases rolls - done,
    {
        let rdm = prng.next_u64();
        let entry = pick_weighted(&weights, (rdm as u128) % total);
        let set = table[entry].set as usize;
        if set >= wins.len() {
            return Err(EngineError::StorageCorrupt);
        }
        if wins[set] == u64::MAX {
            return Err(EngineError::LimitExceeded);
        }
        wins[set] = wins[set] + 1;
        done += 1;
    }
    Ok(())
}

/// The wins of each set after the charges of one material were rolled, and
/// the generator after them. A charge rolls once, and as many times more as
/// two draws say: one from zero up to the number of staked skulls of the
/// material, one below the variety limit.
pub open spec fn wins_after_charges(
    prng: PrngModel,
    table: Seq<StoredSetWeight>,
    quantity: u8,
    variety: u16,
    charges: nat,
    wins: Seq<u64>,
) -> Result<(Seq<u64>, PrngModel), EngineError>
    decreases charges,
{
    if charges == 0 {
        Ok((wins, prng))
    } else {
        let a = drawn_below(prng, (quantity + 1) as nat);
        let drawn_a = after_draw_below(prng, (quantity + 1) as nat);
        let b = drawn_below(drawn_a, variety as nat);
        let drawn_b = after_draw_below(drawn_a, variety as nat);
        match wins_after_rolls(drawn_b, table, (1 + a + b) as nat, wins) {
            Err(e) => Err(e),
            Ok((counted, rolled)) => wins_after_charges(
                rolled,
                table,
                quantity,
                variety,
                (charges - 1) as nat,
                counted,
            ),
        }
    }
}

/// The wins of each set after the charges of material `i` were rolled. A
/// material without charges rolls nothing. One with charges needs a staking
/// table whose weights do not sum to zero.
pub open spec fn wins_after_material(
    prng: PrngModel,
    tables: Seq<Option<Vec<StoredSetWeight>>>,
    charges: Seq<u8>,
    quantities: Seq<u8>,
    variety: u16,
    i: int,
    wins: Seq<u64>,
) -> Result<(Seq<u64>, PrngModel), EngineError> {
    if charges[i] == 0 {
        Ok((wins, prng))
    } else if i >= quantities.len() {
        Err(EngineError::BadInput)
    } else if quantities[i] == u8::MAX {
        Err(EngineError::LimitExceeded)
    } else if i >= tables.len() {
        Err(EngineError::MissingTable)
    } else {
        match tables[i] {
            None => Err(EngineError::MissingTable),
            Some(table) => if total_weight(table_weights(table@)) == 0 {
                Err(EngineError::NoWeight)
            } else {
                wins_after_charges(prng, table@, quantities[i], variety, charges[i] as nat, wins)
            },
        }
    }
}

/// The wins of each set after the charges of the first `n` materials were
/// rolled, in the order of the materials.
pub open spec fn wins_after_materials(
    prng: PrngModel,
    tables: Seq<Option<Vec<StoredSetWeight>>>,
    charges: Seq<u8>,
    quantities: Seq<u8>,
    variety: u16,
    n: int,
    wins: Seq<u64>,
) -> Result<(Seq<u64>, PrngModel), EngineError>
    decreases n,
{
    if n <= 0 {
        Ok((wins, prng))
    } else {
        match wins_after_materials(prng, tables, charges, quantities, variety, n - 1, wins) {
            Err(e) => Err(e),
            Ok((counted, rolled)) => wins_after_material(
                rolled,
                tables,
                charges,
                quantities,
                variety,
                n - 1,
                counted,
            ),
        }
    }
}

/// The ingredients generated after a set won `count` times: for each win the
/// members of the set are shuffled and the first is generated once more. The
/// members stay in the order of the last shuffle.
pub open spec fn generated_by_set(
    prng: PrngModel,
    members: Seq<u8>,
    count: nat,
    generated: Seq<u32>,
) -> Result<(Seq<u8>, Seq<u32>, PrngModel), EngineError>
    decreases count,
{
    if count == 0 {
        Ok((members, generated, prng))
    } else if members.len() == 0 {
        Err(EngineError::EmptySet)
    } else {
        let shuffled = prng.peek_shuffle(members);
        let first = shuffled[0] as int;
        if first >= generated.len() {
            Err(EngineError::StorageCorrupt)
        } else if generated[first] == u32::MAX {
            Err(EngineError::LimitExceeded)
        } else {
            generated_by_set(
                prng.after_shuffle(members),
                shuffled,
                (count - 1) as nat,
                generated.update(first, (generated[first] + 1) as u32),
            )
        }
    }
}

/// The ingredients generated by the wins of the first `n` sets, in the order
/// of the sets.
pub open spec fn generated_by_sets(
    prng: PrngModel,
    sets: Seq<StoredIngrSet>,
    wins: Seq<u64>,
    n: int,
    generated: Seq<u32>,
) -> Result<(Seq<u32>, PrngModel), EngineError>
    decreases n,
{
    if n <= 0 {
        Ok((generated, prng))
    } else {
        match generated_by_sets(prng, sets, wins, n - 1, generated) {
            Err(e) => Err(e),
            Ok((made, drawn)) => match generated_by_set(
                drawn,
                sets[n - 1].list@,
                wins[n - 1] as nat,
                made,
            ) {
                Err(e) => Err(e),
                Ok((_, more, end)) => Ok((more, end)),
            },
        }
    }
}

/// How many of the first `n` quantities are above zero.
pub open spec fn kinds_staked(quantities: Seq<u8>, n: int) -> nat
    decreases n,
{
    if n <= 0 {
        0
    } else {
        kinds_staked(quantities, n - 1) + if quantities[n - 1] > 0 {
            1nat
        } else {
            0nat
        }
    }
}

/// The most kinds of material that the variety limit has room for.
pub const MAX_KINDS: usize = 127;

/// The ingredients that the charges generate, by ingredient index, and the
/// generator after them. First every charge of every material rolls on the
/// staking table of the material; then every set draws a member for each of
/// its wins.
pub open spec fn gen_resources_spec(
    prng: PrngModel,
    tables: Seq<Option<Vec<StoredSetWeight>>>,
    sets: Seq<StoredIngrSet>,
    charges: Seq<u8>,
    quantities: Seq<u8>,
    ingr_cnt: nat,
) -> Result<(Seq<u32>, PrngModel), EngineError> {
    let kinds = kinds_staked(quantities, quantities.len() as int);
    if kinds > MAX_KINDS {
        Err(EngineError::LimitExceeded)
    } else {
        match wins_after_materials(
            prng,
            tables,
            charges,
            quantities,
            (2 * kinds + 1) as u16,
            charges.len() as int,
            Seq::new(sets.len(), |i: int| 0u64),
        ) {
            Err(e) => Err(e),
            Ok((wins, rolled)) => generated_by_sets(
                rolled,
                sets,
                wins,
                sets.len() as int,
                Seq::new(ingr_cnt, |i: int| 0u32),
            ),
        }
    }
}

/// Rolls the charges of one material.
fn roll_charges(
    prng: &mut Prng,
    table: &Vec<StoredSetWeight>,
    quantity: u8,
    variety: u16,
    charges: u8,
    wins: &mut Vec<u64>,
) -> (done: Result<(), EngineError>)
    requires
        total_weight(table_weights(table@)) > 0,
        quantity < u8::MAX,
        1 <= variety <= 256,
    ensures
        final(wins)@.len() == old(wins)@.len(),
        final(prng)@.seed == old(prng)@.seed,
        final(prng)@.entropy == old(prng)@.entropy,
        match wins_after_charges(
            old(prng)@,
            table@,
            quantity,
            variety,
            charges as nat,
            old(wins)@,
        ) {
            Ok((counted, end)) => done.is_ok() && final(wins)@ == counted && final(prng)@ == end,
            Err(e) => done == Err::<(), EngineError>(e),
        },
{
    let mut spent: u8 = 0;
    while spent < charges
        invariant
            spent <= charges,
            total_weight(table_weights(table@)) > 0,
            quantity < u8::MAX,
            1 <= variety <= 256,
            wins@.len() == old(wins)@.len(),
            prng@.seed == old(prng)@.seed,
            prng@.entropy == old(prng)@.entropy,
            wins_after_charges(old(prng)@, table@, quantity, variety, charges as nat, old(wins)@)
                == wins_after_charges(
                prng@,
                table@,
                quantity,
                variety,
                (charges - spent) as nat,
                wins@,
            ),
        decreases charges - spent,
    {
        let a = draw_below(prng, quantity as u16 + 1);
        let b = draw_below(prng, variety);
        let rolls: u16 = 1 + a as u16 + b as u16;
        match roll_sets(prng, table, rolls, wins) {
            Ok(_) => {},
            Err(e) => {
                return Err(e);
            },
        }
        spent += 1;
    }
    Ok(())
}

/// Draws a member of a set for each of its wins.
fn draw_members(prng: &mut Prng, members: &mut Vec<u8>, count: u64, generated: &mut Vec<u32>) -> (done:
    Result<(), EngineError>)
    ensures
        final(generated)@.len() == old(generated)@.len(),
        final(prng)@.seed == old(prng)@.seed,
        final(prng)@.entropy == old(prng)@.entropy,
        match generated_by_set(old(prng)@, old(members)@, count as nat, old(generated)@) {
            Ok((left, made, end)) => done.is_ok() && final(members)@ == left && final(generated)@
                == made && final(prng)@ == end,
            Err(e) => done == Err::<(), EngineError>(e),
        },
{
    let mut drawn: u64 = 0;
    while drawn < count
        invariant
            drawn <= count,
            generated@.len() == old(generated)@.len(),
            prng@.seed == old(prng)@.seed,
            prng@.entropy == old(prng)@.entropy,
            generated_by_set(old(prng)@, old(members)@, count as nat, old(generated)@)
                == generated_by_set(prng@, members@, (count - drawn) as nat, generated@),
        decreases count - drawn,
    {
        if members.len() == 0 {
            return Err(EngineError::EmptySet);
        }
        prng.shuffle(members);
        let first = members[0] as usize;
        if first >= generated.len() {
            return Err(EngineError::StorageCorrupt);
        }
        if generated[first] == u32::MAX {
            return Err(EngineError::LimitExceeded);
        }
        generated[first] = generated[first] + 1;
        drawn += 1;
    }
    Ok(())
}

/// How many quantities are above zero.
pub fn count_kinds(quantities: &Vec<u8>) -> (kinds: usize)
    ensures
        kinds == kinds_staked(quantities@, quantities@.len() as int),
{
    let mut kinds: usize = 0;
    let mut i: usize = 0;
    while i < quantities.len()
        invariant
            i <= quantities.len(),
            kinds <= i,
            kinds == kinds_staked(quantities@, i as int),
        decreases quantities.len() - i,
    {
        if quantities[i] > 0 {
            kinds += 1;
        }
        i += 1;
    }
    kinds
}

/// Generates the ingredients of a list of charges. `charges` holds the
/// charges of each material and `quantities` the number of staked skulls of
/// each; `tables` holds the staking table of each material and `sets` the
/// ingredient sets that the tables name. Returned is how many of each of the
/// `ingr_cnt` ingredients were generated.
///
/// A material with charges must have a staking table, else the roll fails
/// with `MissingTable`, and the weights of the table must not sum to zero,
/// else it fails with `NoWeight`. A set that wins must have a member, else
/// the roll fails with `EmptySet`. A roll that fails leaves the generator
/// where it was.
///
/// Every charge generates at least one ingredient, and no more than one
/// for itself, one for each staked skull of its material and two for each
/// kind of material staked. Every ingredient generated is a member of a set
/// that the staking table of a material with a charge names with a weight
/// above zero. Without a charge nothing is generated.
pub fn gen_resources(
    prng: &mut Prng,
    tables: &Vec<Option<Vec<StoredSetWeight>>>,
    sets: &Vec<StoredIngrSet>,
    charges: &Vec<u8>,
    quantities: &Vec<u8>,
    ingr_cnt: usize,
) -> (out: Result<Vec<u32>, EngineError>)
    ensures
        match gen_resources_spec(
            old(prng)@,
            tables@,
            sets@,
            charges@,
            quantities@,
            ingr_cnt as nat,
        ) {
            Ok((generated, end)) => out matches Ok(g) && g@ == generated && g@.len() == ingr_cnt
                && final(prng)@ == end,
            Err(e) => out == Err::<Vec<u32>, EngineError>(e) && final(prng)@ == old(prng)@,
        },
        final(prng)@.seed == old(prng)@.seed,
        final(prng)@.entropy == old(prng)@.entropy,
        out matches Ok(g) ==> {
            &&& sum_charges(charges@, charges@.len() as int) <= sum_made(g@, ingr_cnt as int)
                <= most_rolls(
                charges@,
                quantities@,
                kinds_staked(quantities@, quantities@.len() as int),
                charges@.len() as int,
            )
            &&& forall|j: int|
                0 <= j < g@.len() && g@[j] > 0 ==> can_yield(tables@, sets@, charges@, j)
            &&& (forall|i: int| 0 <= i < charges@.len() ==> charges@[i] == 0) ==> forall|j: int|
                0 <= j < g@.len() ==> g@[j] == 0
        },
{
    proof {
        lemma_yield(old(prng)@, tables@, sets@, charges@, quantities@, ingr_cnt as nat);
        if forall|i: int| 0 <= i < charges@.len() ==> charges@[i] == 0 {
            lemma_no_charges(
                charges@,
                quantities@,
                kinds_staked(quantities@, quantities@.len() as int),
                charges@.len() as int,
            );
            match gen_resources_spec(
                old(prng)@,
                tables@,
                sets@,
                charges@,
                quantities@,
                ingr_cnt as nat,
            ) {
                Ok((generated, _)) => {
                    lemma_none_made(generated, ingr_cnt as int);
                },
                Err(_) => {},
            }
        }
    }
    let start_pos = prng.word_pos();
    let out = roll_and_draw(prng, tables, sets, charges, quantities, ingr_cnt);
    if out.is_err() {
        prng.set_word_pos(start_pos);
    }
    out
}

/// The rolls and draws of `gen_resources`, wherever they end.
#[verifier::loop_isolation(false)]
fn roll_and_draw(
    prng: &mut Prng,
    tables: &Vec<Option<Vec<StoredSetWeight>>>,
    sets: &Vec<StoredIngrSet>,
    charges: &Vec<u8>,
    quantities: &Vec<u8>,
    ingr_cnt: usize,
) -> (out: Result<Vec<u32>, EngineError>)
    ensures
        final(prng)@.seed == old(prng)@.seed,
        final(prng)@.entropy == old(prng)@.entropy,
        match gen_resources_spec(
            old(prng)@,
            tables@,
            sets@,
            charges@,
            quantities@,
            ingr_cnt as nat,
        ) {
            Ok((generated, end)) => out matches Ok(g) && g@ == generated && g@.len() == ingr_cnt
                && final(prng)@ == end,
            Err(e) => out == Err::<Vec<u32>, EngineError>(e),
        },
{
    let kinds = count_kinds(quantities);
    if kinds > MAX_KINDS {
        return Err(EngineError::LimitExceeded);
    }
    let variety: u16 = (2 * kinds + 1) as u16;
    let mut wins: Vec<u64> = Vec::new();
    let mut s: usize = 0;
    while s < sets.len()
        invariant
            s <= sets.len(),
            wins@ =~= Seq::new(s as nat, |i: int| 0u64),
        decreases sets.len() - s,
    {
        wins.push(0);
        s += 1;
    }
    let ghost wins0 = wins@;
    let mut i: usize = 0;
    while i < charges.len()
        invariant
            i <= charges.len(),
            1 <= variety <= 256,
            wins@.len() == sets@.len(),
            prng@.seed == old(prng)@.seed,
            prng@.entropy == old(prng)@.entropy,
            wins_after_materials(
                old(prng)@,
                tables@,
                charges@,
                quantities@,
                variety,
                i as int,
                wins0,
            ) == Ok::<(Seq<u64>, PrngModel), EngineError>((wins@, prng@)),
        decreases charges.len() - i,
    {
        proof {
            lemma_materials_prefix(
                old(prng)@,
                tables@,
                charges@,
                quantities@,
                variety,
                i + 1,
                charges@.len() as int,
                wins0,
            );
        }
        if charges[i] > 0 {
            if i >= quantities.len() {
                return Err(EngineError::BadInput);
            }
            if quantities[i] == u8::MAX {
                return Err(EngineError::LimitExceeded);
            }
            if i >= tables.len() {
                return Err(EngineError::MissingTable);
            }
            match &tables[i] {
                None => {
                    return Err(EngineError::MissingTable);
                },
                Some(table) => {
                    let weights = weights_of(table);
                    if sum_weights(&weights) == 0 {
                        return Err(EngineError::NoWeight);
                    }
                    match roll_charges(prng, table, quantities[i], variety, charges[i], &mut wins) {
                        Ok(_) => {},
                        Err(e) => {
                            return Err(e);
                        },
                    }
                },
            }
        }
        i += 1;
    }
    let ghost rolled = prng@;
    let ghost counted = wins@;
    let mut generated: Vec<u32> = Vec::new();
    let mut g: usize = 0;
    while g < ingr_cnt
        invariant
            g <= ingr_cnt,
            generated@ =~= Seq::new(g as nat, |i: int| 0u32),
        decreases ingr_cnt - g,
    {
        generated.push(0);
        g += 1;
    }
    let ghost generated0 = generated@;
    let mut k: usize = 0;
    while k < sets.len()
        invariant
            k <= sets.len(),
            wins@ == counted,
            wins@.len() == sets@.len(),
            generated@.len() == ingr_cnt,
            prng@.seed == old(prng)@.seed,
            prng@.entropy == old(prng)@.entropy,
            generated_by_sets(rolled, sets@, counted, k as int, generated0) == Ok::<
                (Seq<u32>, PrngModel),
                EngineError,
            >((generated@, prng@)),
        decreases sets.len() - k,
    {
        proof {
            lemma_sets_prefix(rolled, sets@, counted, k + 1, sets@.len() as int, generated0);
        }
        let mut members = crate::registry_edit::copy_bytes(&sets[k].list);
        match draw_members(prng, &mut members, wins[k], &mut generated) {
            Ok(_) => {},
            Err(e) => {
                return Err(e);
            },
        }
        k += 1;
    }
    Ok(generated)
}

/// Where the rolls of the first materials fail, the rolls of more of them
/// fail in the same way.
pub proof fn lemma_materials_prefix(
    prng: PrngModel,
    tables: Seq<Option<Vec<StoredSetWeight>>>,
    charges: Seq<u8>,
    quantities: Seq<u8>,
    variety: u16,
    n: int,
    k: int,
    wins: Seq<u64>,
)
    requires
        0 <= n <= k,
    ensures
        wins_after_materials(prng, tables, charges, quantities, variety, n, wins) matches Err(e)
            ==> wins_after_materials(prng, tables, charges, quantities, variety, k, wins) == Err::<
            (Seq<u64>, PrngModel),
            EngineError,
        >(e),
    decreases k - n,
{
    if n < k {
        lemma_materials_prefix(prng, tables, charges, quantities, variety, n + 1, k, wins);
    }
}

/// Where the draws of the first sets fail, the draws of more of them fail in
/// the same way.
pub proof fn lemma_sets_prefix(
    prng: PrngModel,
    sets: Seq<StoredIngrSet>,
    wins: Seq<u64>,
    n: int,
    k: int,
    generated: Seq<u32>,
)
    requires
        0 <= n <= k,
    ensures
        generated_by_sets(prng, sets, wins, n, generated) matches Err(e) ==> generated_by_sets(
            prng,
            sets,
            wins,
            k,
            generated,
        ) == Err::<(Seq<u32>, PrngModel), EngineError>(e),
    decreases k - n,
{
    if n < k {
        lemma_sets_prefix(prng, sets, wins, n + 1, k, generated);
    }
}

/// A staking table whose weights sum to zero fails every roll of a charge
/// with `NoWeight`.
pub proof fn lemma_no_weight(
    prng: PrngModel,
    tables: Seq<Option<Vec<StoredSetWeight>>>,
    charges: Seq<u8>,
    quantities: Seq<u8>,
    variety: u16,
    i: int,
    wins: Seq<u64>,
)
    requires
        0 <= i < tables.len(),
        i < quantities.len(),
        quantities[i] < u8::MAX,
        charges[i] > 0,
        tables[i] matches Some(table) && total_weight(table_weights(table@)) == 0,
    ensures
        wins_after_material(prng, tables, charges, quantities, variety, i, wins) == Err::<
            (Seq<u64>, PrngModel),
            EngineError,
        >(EngineError::NoWeight),
{
}

} // verus!
