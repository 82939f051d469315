//! What a roll of rewards can yield: how much, and which ingredients.
use crate::prng::{lemma_shuffle_keeps_items, PrngModel};
use crate::roller::{
    after_draw_below, drawn_below, gen_resources_spec, generated_by_set, generated_by_sets,
    kinds_staked, numbers_upto, table_weights, wins_after_charges, wins_after_material,
    wins_after_materials, wins_after_rolls, StoredIngrSet, StoredSetWeight, MAX_KINDS,
};
use crate::weights::{lemma_pick, pick, total_weight};
use vstd::prelude::*;

verus! {

/// The sum of the first `n` counts of wins.
pub open spec fn sum_wins(wins: Seq<u64>, n: int) -> nat
    decreases n,
{
    if n <= 0 {
        0
    } else {
        sum_wins(wins, n - 1) + wins[n - 1] as nat
    }
}

/// The sum of the first `n` quantities generated.
pub open spec fn sum_made(made: Seq<u32>, n: int) -> nat
    decreases n,
{
    if n <= 0 {
        0
    } else {
        sum_made(made, n - 1) + made[n - 1] as nat
    }
}

/// The sum of the charges of the first `n` materials.
pub open spec fn sum_charges(charges: Seq<u8>, n: int) -> nat
    decreases n,
{
    if n <= 0 {
        0
    } else {
        sum_charges(charges, n - 1) + charges[n - 1] as nat
    }
}

/// The most rolls that the charges of the first `n` materials can make: a
/// charge of a material rolls once, up to once more for each staked skull
/// of the material, and up to twice more for each kind of material staked.
pub open spec fn most_rolls(charges: Seq<u8>, quantities: Seq<u8>, kinds: nat, n: int) -> nat
    decreases n,
{
    if n <= 0 {
        0
    } else {
        let staked: nat = if n - 1 < quantities.len() {
            quantities[n - 1] as nat
        } else {
            0
        };
        most_rolls(charges, quantities, kinds, n - 1) + charges[n - 1] as nat * (1 + staked + 2
            * kinds)
    }
}

/// Whether entry `e` of the staking table of material `i` lets a set win:
/// the material has a charge, and the entry names the set with a weight
/// above zero.
pub open spec fn entry_wins(
    tables: Seq<Option<Vec<StoredSetWeight>>>,
    charges: Seq<u8>,
    set: int,
    i: int,
    e: int,
) -> bool {
    &&& 0 <= i < charges.len()
    &&& charges[i] > 0
    &&& i < tables.len()
    &&& tables[i] matches Some(table) && 0 <= e < table@.len() && table@[e].set == set
        && table@[e].weight > 0
}

/// Whether a set can win: the staking table of a material with a charge
/// names it with a weight above zero.
pub open spec fn can_win(
    tables: Seq<Option<Vec<StoredSetWeight>>>,
    charges: Seq<u8>,
    set: int,
) -> bool {
    exists|i: int, e: int| #[trigger] entry_wins(tables, charges, set, i, e)
}

/// Whether a list of ingredient indices holds an ingredient.
pub open spec fn lists(members: Seq<u8>, ingredient: int) -> bool {
    exists|k: int| 0 <= k < members.len() && #[trigger] members[k] == ingredient
}

/// Whether set `s` can win and holds an ingredient.
pub open spec fn set_yields(
    tables: Seq<Option<Vec<StoredSetWeight>>>,
    sets: Seq<StoredIngrSet>,
    charges: Seq<u8>,
    ingredient: int,
    s: int,
) -> bool {
    0 <= s < sets.len() && can_win(tables, charges, s) && lists(sets[s].list@, ingredient)
}

/// Whether an ingredient can be generated: it is a member of a set that can
/// win.
pub open spec fn can_yield(
    tables: Seq<Option<Vec<StoredSetWeight>>>,
    sets: Seq<StoredIngrSet>,
    charges: Seq<u8>,
    ingredient: int,
) -> bool {
    exists|s: int| #[trigger] set_yields(tables, sets, charges, ingredient, s)
}

/// One more win of a set is one more in the sum.
pub proof fn lemma_sum_wins_update(wins: Seq<u64>, i: int, v: u64, n: int)
    requires
        0 <= i < wins.len(),
        0 <= n <= wins.len(),
    ensures
        sum_wins(wins.update(i, v), n) == (if i < n {
            sum_wins(wins, n) - wins[i] + v
        } else {
            sum_wins(wins, n) as int
        }),
    decreases n,
{
    if n > 0 {
        lemma_sum_wins_update(wins, i, v, n - 1);
    }
}

/// One more of an ingredient is one more in the sum.
pub proof fn lemma_sum_made_update(made: Seq<u32>, i: int, v: u32, n: int)
    requires
        0 <= i < made.len(),
        0 <= n <= made.len(),
    ensures
        sum_made(made.update(i, v), n) == (if i < n {
            sum_made(made, n) - made[i] + v
        } else {
            sum_made(made, n) as int
        }),
    decreases n,
{
    if n > 0 {
        lemma_sum_made_update(made, i, v, n - 1);
    }
}

/// Nothing won sums to nothing.
pub proof fn lemma_no_wins(len: nat, n: int)
    requires
        0 <= n <= len,
    ensures
        sum_wins(Seq::new(len, |i: int| 0u64), n) == 0,
    decreases n,
{
    if n > 0 {
        lemma_no_wins(len, n - 1);
    }
}

/// Nothing generated sums to nothing.
pub proof fn lemma_nothing_made(len: nat, n: int)
    requires
        0 <= n <= len,
    ensures
        sum_made(Seq::new(len, |i: int| 0u32), n) == 0,
    decreases n,
{
    if n > 0 {
        lemma_nothing_made(len, n - 1);
    }
}

/// A number drawn from those below `n` is below `n`.
pub proof fn lemma_drawn_below(prng: PrngModel, n: nat)
    requires
        1 <= n <= 256,
    ensures
        drawn_below(prng, n) < n,
{
    let numbers = numbers_upto(n);
    lemma_shuffle_keeps_items(prng, numbers);
    let drawn = prng.peek_shuffle(numbers)[0];
    assert(numbers.contains(drawn));
    let k = choose|k: int| 0 <= k < numbers.len() && numbers[k] == drawn;
    assert(numbers[k] == k as u8);
}

/// Every roll wins one set once: the rolls on a table add as many wins as
/// there are rolls, and only to sets that the table names with a weight
/// above zero.
pub proof fn lemma_rolls(
    prng: PrngModel,
    table: Seq<StoredSetWeight>,
    rolls: nat,
    wins: Seq<u64>,
    allowed: Set<int>,
)
    requires
        total_weight(table_weights(table)) > 0,
        forall|s: int| 0 <= s < wins.len() && wins[s] > 0 ==> allowed.contains(s),
        forall|e: int|
            0 <= e < table.len() && (#[trigger] table[e]).weight > 0 ==> allowed.contains(
                table[e].set as int,
            ),
    ensures
        wins_after_rolls(prng, table, rolls, wins) matches Ok((counted, _)) ==> {
            &&& counted.len() == wins.len()
            &&& sum_wins(counted, wins.len() as int) == sum_wins(wins, wins.len() as int) + rolls
            &&& forall|s: int| 0 <= s < counted.len() && counted[s] > 0 ==> allowed.contains(s)
        },
    decreases rolls,
{
    if rolls > 0 {
        let weights = table_weights(table);
        let total = total_weight(weights);
        let number = (prng.peek_u64() as nat) % total;
        assert(number < total) by (nonlinear_arith)
            requires
                number == (prng.peek_u64() as nat) % total,
                total > 0,
        ;
        lemma_pick(weights, number);
        let entry = pick(weights, number) as int;
        assert(table[entry].weight > 0);
        let set = table[entry].set as int;
        if set < wins.len() && wins[set] < u64::MAX {
            let next = wins.update(set, (wins[set] + 1) as u64);
            lemma_sum_wins_update(wins, set, (wins[set] + 1) as u64, wins.len() as int);
            lemma_rolls(prng.after_u64(), table, (rolls - 1) as nat, next, allowed);
        }
    }
}

/// The charges of a material add at least one win each, at most as many as
/// a charge can roll, and only to sets that the table names with a weight
/// above zero.
pub proof fn lemma_charges(
    prng: PrngModel,
    table: Seq<StoredSetWeight>,
    quantity: u8,
    kinds: nat,
    charges: nat,
    wins: Seq<u64>,
    allowed: Set<int>,
)
    requires
        total_weight(table_weights(table)) > 0,
        quantity < u8::MAX,
        kinds <= MAX_KINDS,
        forall|s: int| 0 <= s < wins.len() && wins[s] > 0 ==> allowed.contains(s),
        forall|e: int|
            0 <= e < table.len() && (#[trigger] table[e]).weight > 0 ==> allowed.contains(
                table[e].set as int,
            ),
    ensures
        wins_after_charges(prng, table, quantity, (2 * kinds + 1) as u16, charges, wins) matches Ok(
            (counted, _),
        ) ==> {
            &&& counted.len() == wins.len()
            &&& sum_wins(wins, wins.len() as int) + charges <= sum_wins(
                counted,
                wins.len() as int,
            ) <= sum_wins(wins, wins.len() as int) + charges * (1 + quantity + 2 * kinds)
            &&& forall|s: int| 0 <= s < counted.len() && counted[s] > 0 ==> allowed.contains(s)
        },
    decreases charges,
{
    if charges > 0 {
        let variety = (2 * kinds + 1) as u16;
        lemma_drawn_below(prng, (quantity + 1) as nat);
        let a = drawn_below(prng, (quantity + 1) as nat);
        let drawn_a = after_draw_below(prng, (quantity + 1) as nat);
        lemma_drawn_below(drawn_a, variety as nat);
        let b = drawn_below(drawn_a, variety as nat);
        let drawn_b = after_draw_below(drawn_a, variety as nat);
        let rolls = (1 + a + b) as nat;
        lemma_rolls(drawn_b, table, rolls, wins, allowed);
        match wins_after_rolls(drawn_b, table, rolls, wins) {
            Ok((counted, rolled)) => {
                lemma_charges(
                    rolled,
                    table,
                    quantity,
                    kinds,
                    (charges - 1) as nat,
                    counted,
                    allowed,
                );
                let most = 1 + quantity + 2 * kinds;
                assert(charges * most == (charges - 1) * most + most) by (nonlinear_arith);
            },
            Err(_) => {},
        }
    }
}

/// The charges of the first `n` materials add at least one win each and at
/// most as many as they can roll, and only to sets that can win.
pub proof fn lemma_materials(
    prng: PrngModel,
    tables: Seq<Option<Vec<StoredSetWeight>>>,
    charges: Seq<u8>,
    quantities: Seq<u8>,
    kinds: nat,
    n: int,
    wins: Seq<u64>,
)
    requires
        0 <= n <= charges.len(),
        kinds <= MAX_KINDS,
        forall|s: int| 0 <= s < wins.len() && wins[s] > 0 ==> can_win(tables, charges, s),
    ensures
        wins_after_materials(
            prng,
            tables,
            charges,
            quantities,
            (2 * kinds + 1) as u16,
            n,
            wins,
        ) matches Ok((counted, _)) ==> {
            &&& counted.len() == wins.len()
            &&& sum_wins(wins, wins.len() as int) + sum_charges(charges, n) <= sum_wins(
                counted,
                wins.len() as int,
            ) <= sum_wins(wins, wins.len() as int) + most_rolls(charges, quantities, kinds, n)
            &&& forall|s: int|
                0 <= s < counted.len() && counted[s] > 0 ==> can_win(tables, charges, s)
        },
    decreases n,
{
    if n > 0 {
        let variety = (2 * kinds + 1) as u16;
        lemma_materials(prng, tables, charges, quantities, kinds, n - 1, wins);
        match wins_after_materials(prng, tables, charges, quantities, variety, n - 1, wins) {
            Ok((counted, rolled)) => {
                let i = n - 1;
                match wins_after_material(rolled, tables, charges, quantities, variety, i, counted) {
                    Ok((more, _)) => {
                        if charges[i] > 0 {
                            let table = tables[i].unwrap();
                            let allowed = Set::new(|s: int| can_win(tables, charges, s));
                            assert forall|e: int|
                                0 <= e < table@.len() && (#[trigger] table@[e]).weight
                                    > 0 implies allowed.contains(table@[e].set as int) by {
                                assert(entry_wins(tables, charges, table@[e].set as int, i, e));
                            }
                            assert forall|s: int|
                                0 <= s < counted.len() && counted[s] > 0 implies allowed.contains(
                                s,
                            ) by {
                                assert(can_win(tables, charges, s));
                            }
                            lemma_charges(
                                rolled,
                                table@,
                                quantities[i],
                                kinds,
                                charges[i] as nat,
                                counted,
                                allowed,
                            );
                            assert forall|s: int|
                                0 <= s < more.len() && more[s] > 0 implies can_win(
                                tables,
                                charges,
                                s,
                            ) by {
                                assert(allowed.contains(s));
                            }
                        } else {
                            let staked: nat = if i < quantities.len() {
                                quantities[i] as nat
                            } else {
                                0
                            };
                            assert(charges[i] as nat * (1 + staked + 2 * kinds) == 0)
                                by (nonlinear_arith)
                                requires
                                    charges[i] == 0,
                            ;
                        }
                    },
                    Err(_) => {},
                }
            },
            Err(_) => {},
        }
    }
}

/// The wins of a set generate one ingredient each, and only members of the
/// set.
pub proof fn lemma_set(
    prng: PrngModel,
    members: Seq<u8>,
    count: nat,
    generated: Seq<u32>,
    allowed: Set<int>,
)
    requires
        forall|k: int| 0 <= k < members.len() ==> allowed.contains(#[trigger] members[k] as int),
        forall|j: int| 0 <= j < generated.len() && generated[j] > 0 ==> allowed.contains(j),
    ensures
        generated_by_set(prng, members, count, generated) matches Ok((_, made, _)) ==> {
            &&& made.len() == generated.len()
            &&& sum_made(made, made.len() as int) == sum_made(generated, made.len() as int) + count
            &&& forall|j: int| 0 <= j < made.len() && made[j] > 0 ==> allowed.contains(j)
        },
    decreases count,
{
    if count > 0 && members.len() > 0 {
        lemma_shuffle_keeps_items(prng, members);
        let shuffled = prng.peek_shuffle(members);
        let first = shuffled[0] as int;
        assert forall|k: int| 0 <= k < shuffled.len() implies allowed.contains(
            #[trigger] shuffled[k] as int,
        ) by {
            assert(members.contains(shuffled[k]));
            let at = choose|at: int| 0 <= at < members.len() && members[at] == shuffled[k];
            assert(allowed.contains(members[at] as int));
        }
        assert(allowed.contains(shuffled[0] as int));
        if first < generated.len() && generated[first] < u32::MAX {
            let next = generated.update(first, (generated[first] + 1) as u32);
            lemma_sum_made_update(
                generated,
                first,
                (generated[first] + 1) as u32,
                generated.len() as int,
            );
            lemma_set(prng.after_shuffle(members), shuffled, (count - 1) as nat, next, allowed);
        }
    }
}

/// The wins of the first `n` sets generate one ingredient each, and only
/// ingredients that can be generated.
pub proof fn lemma_sets(
    prng: PrngModel,
    tables: Seq<Option<Vec<StoredSetWeight>>>,
    sets: Seq<StoredIngrSet>,
    charges: Seq<u8>,
    wins: Seq<u64>,
    n: int,
    generated: Seq<u32>,
)
    requires
        0 <= n <= sets.len(),
        n <= wins.len(),
        forall|s: int| 0 <= s < wins.len() && wins[s] > 0 ==> can_win(tables, charges, s),
        forall|j: int|
            0 <= j < generated.len() && generated[j] > 0 ==> can_yield(tables, sets, charges, j),
    ensures
        generated_by_sets(prng, sets, wins, n, generated) matches Ok((made, _)) ==> {
            &&& made.len() == generated.len()
            &&& sum_made(made, made.len() as int) == sum_made(generated, made.len() as int)
                + sum_wins(wins, n)
            &&& forall|j: int|
                0 <= j < made.len() && made[j] > 0 ==> can_yield(tables, sets, charges, j)
        },
    decreases n,
{
    if n > 0 {
        lemma_sets(prng, tables, sets, charges, wins, n - 1, generated);
        match generated_by_sets(prng, sets, wins, n - 1, generated) {
            Ok((made, drawn)) => {
                let s = n - 1;
                let members = sets[s].list@;
                if wins[s] > 0 {
                    let allowed = Set::new(|j: int| can_yield(tables, sets, charges, j));
                    assert forall|k: int| 0 <= k < members.len() implies allowed.contains(
                        #[trigger] members[k] as int,
                    ) by {
                        assert(can_win(tables, charges, s));
                        assert(lists(members, members[k] as int));
                        assert(set_yields(tables, sets, charges, members[k] as int, s));
                    }
                    assert forall|j: int|
                        0 <= j < made.len() && made[j] > 0 implies allowed.contains(j) by {
                        assert(can_yield(tables, sets, charges, j));
                    }
                    lemma_set(drawn, members, wins[s] as nat, made, allowed);
                    match generated_by_set(drawn, members, wins[s] as nat, made) {
                        Ok((_, more, _)) => {
                            assert forall|j: int|
                                0 <= j < more.len() && more[j] > 0 implies can_yield(
                                tables,
                                sets,
                                charges,
                                j,
                            ) by {
                                assert(allowed.contains(j));
                            }
                        },
                        Err(_) => {},
                    }
                }
            },
            Err(_) => {},
        }
    }
}

/// Materials without charges can make no roll.
pub proof fn lemma_no_charges(charges: Seq<u8>, quantities: Seq<u8>, kinds: nat, n: int)
    requires
        0 <= n <= charges.len(),
        forall|i: int| 0 <= i < n ==> charges[i] == 0,
    ensures
        most_rolls(charges, quantities, kinds, n) == 0,
    decreases n,
{
    if n > 0 {
        lemma_no_charges(charges, quantities, kinds, n - 1);
        let staked: nat = if n - 1 < quantities.len() {
            quantities[n - 1] as nat
        } else {
            0
        };
        assert(charges[n - 1] as nat * (1 + staked + 2 * kinds) == 0) by (nonlinear_arith)
            requires
                charges[n - 1] == 0,
        ;
    }
}

/// Where the quantities generated sum to nothing, none was generated.
pub proof fn lemma_none_made(made: Seq<u32>, n: int)
    requires
        0 <= n <= made.len(),
        sum_made(made, n) == 0,
    ensures
        forall|j: int| 0 <= j < n ==> made[j] == 0,
    decreases n,
{
    if n > 0 {
        lemma_none_made(made, n - 1);
    }
}

/// What the roller generates is bounded and earned: every charge generates
/// at least one ingredient and no more than it can roll, and every
/// ingredient generated is a member of a set that the staking table of a
/// material with a charge names with a weight above zero.
pub proof fn lemma_yield(
    prng: PrngModel,
    tables: Seq<Option<Vec<StoredSetWeight>>>,
    sets: Seq<StoredIngrSet>,
    charges: Seq<u8>,
    quantities: Seq<u8>,
    ingr_cnt: nat,
)
    ensures
        gen_resources_spec(prng, tables, sets, charges, quantities, ingr_cnt) matches Ok(
            (generated, _),
        ) ==> {
            let kinds = kinds_staked(quantities, quantities.len() as int);
            &&& generated.len() == ingr_cnt
            &&& sum_charges(charges, charges.len() as int) <= sum_made(
                generated,
                ingr_cnt as int,
            ) <= most_rolls(charges, quantities, kinds, charges.len() as int)
            &&& forall|j: int|
                0 <= j < generated.len() && generated[j] > 0 ==> can_yield(
                    tables,
                    sets,
                    charges,
                    j,
                )
        },
{
    let kinds = kinds_staked(quantities, quantities.len() as int);
    if kinds <= MAX_KINDS {
        let wins0 = Seq::new(sets.len(), |i: int| 0u64);
        let made0 = Seq::new(ingr_cnt, |i: int| 0u32);
        lemma_no_wins(sets.len(), sets.len() as int);
        lemma_nothing_made(ingr_cnt, ingr_cnt as int);
        lemma_materials(prng, tables, charges, quantities, kinds, charges.len() as int, wins0);
        match wins_after_materials(
            prng,
            tables,
            charges,
            quantities,
            (2 * kinds + 1) as u16,
            charges.len() as int,
            wins0,
        ) {
            Ok((wins, rolled)) => {
                lemma_sets(rolled, tables, sets, charges, wins, sets.len() as int, made0);
            },
            Err(_) => {},
        }
    }
}

} // verus!
