use rand_core::RngCore;
use secret_toolkit::crypto::ContractPrng;
use skull_alchemy::error::EngineError;
use skull_alchemy::prng::{extend_entropy, Prng};
use skull_alchemy::raffle::{roll, Counts, Raffle, RollConfig};
use skull_alchemy::reservoir::Reservoir;

fn admin() -> Vec<u8> {
    b"admin".to_vec()
}

fn new_raffle(num_tokens: u32, start_one: bool) -> Raffle {
    Raffle {
        admins: vec![admin()],
        roll: RollConfig {
            claimed: 0,
            partner: "Partners".to_string(),
            num_tokens,
            start_one,
            round: None,
            halted: false,
        },
        prng_seed: vec![7; 32],
        skulls_address: b"skulls".to_vec(),
        partner_address: b"partner".to_vec(),
        drawn_skulls: Vec::new(),
        drawn_partner: Vec::new(),
        rounds: Vec::new(),
        redeemed: Vec::new(),
    }
}

fn ids(list: &[&str]) -> Vec<String> {
    list.iter().map(|s| s.to_string()).collect()
}

fn consistent(reservoir: &Reservoir) {
    assert_eq!(reservoir.winners.len(), reservoir.map.len());
    for (i, winner) in reservoir.winners.iter().enumerate() {
        assert_eq!(reservoir.lookup(winner), Some(i as u32));
    }
    for entry in reservoir.map.iter() {
        assert_eq!(reservoir.winners[entry.index as usize], entry.token_id);
    }
}

#[test]
fn reservoir_keeps_list_and_index_together() {
    let mut reservoir = Reservoir::new();
    for id in ["4", "8", "15", "16", "23"] {
        reservoir.insert(id.to_string());
    }
    consistent(&reservoir);
    assert_eq!(reservoir.count(), 5);
    assert_eq!(reservoir.lookup(&"15".to_string()), Some(2));
    assert_eq!(reservoir.lookup(&"42".to_string()), None);
    // the last winner moves into the place of the one taken out
    assert!(reservoir.consume(&"8".to_string()));
    assert_eq!(reservoir.winners, ids(&["4", "23", "15", "16"]));
    consistent(&reservoir);
    // a token is consumed once
    assert!(!reservoir.consume(&"8".to_string()));
    assert_eq!(reservoir.count(), 4);
    // taking out the last winner moves nothing
    assert!(reservoir.consume(&"16".to_string()));
    assert_eq!(reservoir.winners, ids(&["4", "23", "15"]));
    consistent(&reservoir);
    assert!(reservoir.consume(&"4".to_string()));
    assert!(reservoir.consume(&"15".to_string()));
    assert!(reservoir.consume(&"23".to_string()));
    assert_eq!(reservoir.count(), 0);
    assert!(!reservoir.consume(&"23".to_string()));
}

#[test]
fn roll_draws_what_the_stream_gives() {
    let drawn = ids(&["3"]);
    let mut prng = Prng::new(vec![1, 2, 3], vec![4, 5]);
    let mut attempts: u64 = 1000;
    let reservoir = roll(&drawn, &mut prng, 3, 10, 0, &mut attempts).unwrap();
    // the same draws, made by hand on one unbroken generator
    let mut straight = ContractPrng::new(&[1, 2, 3], &[4, 5]);
    let mut expected: Vec<String> = Vec::new();
    let mut tries = 0u64;
    while expected.len() < 3 {
        let winner = format!("{}", straight.next_u64() % 10);
        tries += 1;
        if winner != "3" && !expected.contains(&winner) {
            expected.push(winner);
        }
    }
    assert_eq!(reservoir.winners, expected);
    assert_eq!(attempts, 1000 - tries);
    consistent(&reservoir);
}

#[test]
fn roll_gives_up_when_attempts_run_out() {
    // every token of the collection was drawn before
    let drawn = ids(&["0", "1"]);
    let mut prng = Prng::new(vec![1], vec![2]);
    let mut attempts: u64 = 50;
    assert_eq!(
        roll(&drawn, &mut prng, 1, 2, 0, &mut attempts).unwrap_err(),
        EngineError::LimitExceeded
    );
    let mut attempts: u64 = 50;
    assert_eq!(roll(&drawn, &mut prng, 1, 0, 0, &mut attempts).unwrap_err(), EngineError::BadInput);
    // nothing to draw needs no attempt and no token
    let mut attempts: u64 = 0;
    assert_eq!(roll(&drawn, &mut prng, 0, 0, 0, &mut attempts).unwrap().count(), 0);
}

#[test]
fn token_ids_start_at_the_modifier() {
    let mut prng = Prng::new(vec![9], vec![9]);
    let mut attempts: u64 = 1000;
    let reservoir = roll(&Vec::new(), &mut prng, 4, 4, 1, &mut attempts).unwrap();
    let mut winners = reservoir.winners.clone();
    winners.sort();
    assert_eq!(winners, ids(&["1", "2", "3", "4"]));
}

#[test]
fn raffle_draws_without_duplicates_and_redeems_once() {
    let mut raffle = new_raffle(10, false);
    let counts = raffle
        .try_raffle(&admin(), &b"secret1admin".to_vec(), 3, 100, 5, 1000, &b"dice".to_vec(), 10_000)
        .unwrap();
    assert_eq!(counts, Counts { skulls: 0, partner: 3 });
    assert_eq!(raffle.roll.round, Some(0));
    let winners = raffle.rounds[0].partner.winners.clone();
    assert_eq!(winners.len(), 3);
    assert!(winners[0] != winners[1] && winners[0] != winners[2] && winners[1] != winners[2]);
    for w in winners.iter() {
        assert!(w.parse::<u32>().unwrap() < 10);
    }
    assert_eq!(raffle.drawn_partner, winners);
    // the seed moved on
    assert_ne!(raffle.prng_seed, vec![7; 32]);

    // redeem the second winner
    let redemption = raffle
        .try_batch_receive_nft(&b"partner".to_vec(), &b"owner".to_vec(), &vec![winners[1].clone()])
        .unwrap();
    assert_eq!(redemption.redeemed, vec![winners[1].clone()]);
    assert_eq!(redemption.memos, vec![format!("Claimed with Partners {}", winners[1])]);
    let pool = &raffle.rounds[0].partner;
    assert_eq!(pool.count(), 2);
    assert_eq!(raffle.rounds[0].counts.partner, 2);
    assert_eq!(pool.lookup(&winners[1]), None);
    assert_eq!(pool.lookup(&winners[0]), Some(0));
    assert_eq!(pool.lookup(&winners[2]), Some(1));
    consistent(pool);
    assert_eq!(raffle.roll.claimed, 1);
    assert_eq!(raffle.redeemed[0].token_id, winners[1]);
    assert_eq!(raffle.redeemed[0].owner, b"owner".to_vec());
    assert!(!raffle.redeemed[0].is_skull);

    // a second attempt with the same token redeems nothing
    let again = raffle
        .try_batch_receive_nft(&b"partner".to_vec(), &b"owner".to_vec(), &vec![winners[1].clone()])
        .unwrap();
    assert!(again.redeemed.is_empty());
    assert_eq!(raffle.roll.claimed, 1);
}

#[test]
fn raffle_seed_is_a_function_of_seed_and_message() {
    let mut a = new_raffle(50, true);
    let mut b = new_raffle(50, true);
    a.raffle(10, 30, 5, 1000, &b"sender".to_vec(), &b"dice".to_vec(), 10_000).unwrap();
    b.raffle(10, 30, 5, 1000, &b"sender".to_vec(), &b"dice".to_vec(), 10_000).unwrap();
    assert_eq!(a, b);
    assert_eq!(a.rounds[0].counts, Counts { skulls: 7, partner: 3 });
    // what the message brings changes the draw
    let mut c = new_raffle(50, true);
    c.raffle(10, 30, 6, 1000, &b"sender".to_vec(), &b"dice".to_vec(), 10_000).unwrap();
    assert_ne!(a.prng_seed, c.prng_seed);
    // the new seed is what the generator gives after the draws
    let entropy = extend_entropy(5, 1000, &b"sender".to_vec(), &b"dice".to_vec());
    let mut straight = ContractPrng::new(&[7; 32], &entropy);
    let mut skulls: Vec<String> = Vec::new();
    while skulls.len() < 7 {
        let w = format!("{}", straight.next_u64() % 10000);
        if !skulls.contains(&w) {
            skulls.push(w);
        }
    }
    let mut partner: Vec<String> = Vec::new();
    while partner.len() < 3 {
        let w = format!("{}", straight.next_u64() % 50 + 1);
        if !partner.contains(&w) {
            partner.push(w);
        }
    }
    assert_eq!(a.rounds[0].skulls.winners, skulls);
    assert_eq!(a.rounds[0].partner.winners, partner);
    assert_eq!(a.prng_seed, straight.rand_bytes().to_vec());
}

#[test]
fn raffle_refusals_change_nothing() {
    let mut raffle = new_raffle(10, false);
    let before = raffle.clone();
    assert_eq!(
        raffle.try_raffle(&b"nobody".to_vec(), &vec![], 3, 0, 5, 1000, &vec![], 100),
        Err(EngineError::Unauthorized)
    );
    assert_eq!(
        raffle.raffle(3, 101, 5, 1000, &vec![], &vec![], 100),
        Err(EngineError::BadPercent)
    );
    // more partner tokens than the collection has
    assert_eq!(
        raffle.raffle(20, 100, 5, 1000, &vec![], &vec![], 500),
        Err(EngineError::LimitExceeded)
    );
    assert_eq!(raffle, before);
    assert_eq!(
        raffle.try_batch_receive_nft(&b"partner".to_vec(), &vec![], &vec![]),
        Err(EngineError::NoRound)
    );
    assert_eq!(raffle.query_redeemable(true, None, None, None), Err(EngineError::NoRound));
}

#[test]
fn later_rounds_skip_earlier_winners() {
    let mut raffle = new_raffle(6, false);
    raffle.raffle(3, 100, 1, 1, &vec![], &vec![], 10_000).unwrap();
    raffle.raffle(3, 100, 2, 2, &vec![], &vec![], 10_000).unwrap();
    assert_eq!(raffle.roll.round, Some(1));
    let mut all = raffle.rounds[0].partner.winners.clone();
    all.extend(raffle.rounds[1].partner.winners.clone());
    assert_eq!(raffle.drawn_partner, all);
    all.sort();
    assert_eq!(all, ids(&["0", "1", "2", "3", "4", "5"]));
    // only winners of the last round redeem
    let first = raffle.rounds[0].partner.winners[0].clone();
    let last = raffle.rounds[1].partner.winners[0].clone();
    let redemption = raffle
        .try_batch_receive_nft(&b"partner".to_vec(), &b"o".to_vec(), &vec![first, last.clone()])
        .unwrap();
    assert_eq!(redemption.redeemed, vec![last]);
    assert_eq!(raffle.rounds[0].partner.count(), 3);
    assert_eq!(raffle.rounds[1].partner.count(), 2);
}

#[test]
fn claims_halt_and_unknown_collections_are_refused() {
    let mut raffle = new_raffle(10, false);
    raffle.raffle(4, 50, 1, 1, &vec![], &vec![], 10_000).unwrap();
    assert_eq!(
        raffle.try_batch_receive_nft(&b"stranger".to_vec(), &vec![], &vec![]),
        Err(EngineError::UnknownContract)
    );
    assert_eq!(raffle.try_set_halt(&b"nobody".to_vec(), true), Err(EngineError::Unauthorized));
    assert_eq!(raffle.try_set_halt(&admin(), true), Ok(true));
    assert_eq!(
        raffle.try_batch_receive_nft(&b"skulls".to_vec(), &vec![], &vec![]),
        Err(EngineError::Halted)
    );
}

#[test]
fn raffle_queries_show_pages() {
    let mut raffle = new_raffle(10, false);
    raffle.raffle(5, 40, 1, 1, &vec![], &vec![], 10_000).unwrap();
    let skulls = raffle.rounds[0].skulls.winners.clone();
    let shown = raffle.query_redeemable(true, None, Some(1), Some(2)).unwrap();
    assert_eq!(shown.collection, "Mystic Skulls");
    assert_eq!(shown.count, 3);
    assert_eq!(shown.round, 0);
    assert_eq!(shown.token_ids, vec![skulls[2].clone()]);
    let partner = raffle.query_redeemable(false, Some(0), None, None).unwrap();
    assert_eq!(partner.collection, "Partners");
    assert_eq!(partner.token_ids, raffle.rounds[0].partner.winners);
    assert_eq!(raffle.query_redeemable(true, Some(3), None, None), Err(EngineError::StorageCorrupt));
    let which = raffle
        .query_which(&vec![skulls[1].clone(), "not a token".to_string()], &vec![skulls[0].clone()])
        .unwrap();
    assert_eq!(which.0, false);
    assert_eq!(which.1, vec![skulls[1].clone()]);
    // a skull id need not be a partner winner
    assert_eq!(which.2.len() <= 1, true);
    raffle.try_batch_receive_nft(&b"skulls".to_vec(), &b"me".to_vec(), &skulls).unwrap();
    let (count, claims) = raffle.query_claimed(None, Some(2));
    assert_eq!(count, 3);
    assert_eq!(claims.len(), 2);
    assert_eq!(claims[0].collection, "Mystic Skulls");
    assert_eq!(claims[0].token_id, skulls[0]);
    assert_eq!(claims[1].round, 0);
}
