use rand::seq::SliceRandom;
use rand_core::RngCore;
use secret_toolkit::crypto::ContractPrng;
use skull_alchemy::prng::{extend_entropy, initial_seed, sha_256, Prng};
use skull_alchemy::text::{bytes_eq, decimal_string, str_eq};

#[test]
fn sha_256_of_known_text() {
    let digest = sha_256(&b"test".to_vec());
    let expected: [u8; 32] = [
        159, 134, 208, 129, 136, 76, 125, 101, 154, 47, 234, 160, 197, 90, 208, 21, 163, 191, 79,
        27, 43, 11, 130, 44, 209, 93, 108, 21, 176, 240, 10, 8,
    ];
    assert_eq!(digest, expected);
}

#[test]
fn initial_seed_is_the_digest_of_the_base64_text() {
    // the base64 text of "hello" is "aGVsbG8="
    assert_eq!(initial_seed(&b"hello".to_vec()), sha_256(&b"aGVsbG8=".to_vec()));
    assert_ne!(initial_seed(&b"hello".to_vec()), sha_256(&b"hello".to_vec()));
}

#[test]
fn rand_bytes_follow_the_stream() {
    let mut prng = Prng::new(b"foo".to_vec(), b"bar!".to_vec());
    let r1: [u8; 32] = [
        155, 11, 21, 97, 252, 65, 160, 190, 100, 126, 85, 251, 47, 73, 160, 49, 216, 182, 93, 30,
        185, 67, 166, 22, 34, 10, 213, 112, 21, 136, 49, 214,
    ];
    let r2: [u8; 32] = [
        46, 135, 19, 242, 111, 125, 59, 215, 114, 130, 122, 155, 202, 23, 36, 118, 83, 11, 6, 180,
        97, 165, 218, 136, 134, 243, 191, 191, 149, 178, 7, 149,
    ];
    assert_eq!(prng.rand_bytes(), r1);
    assert_eq!(prng.word_pos(), 8);
    assert_eq!(prng.rand_bytes(), r2);
}

#[test]
fn set_word_pos_moves_in_the_stream() {
    let mut prng = Prng::new(b"foo".to_vec(), b"bar".to_vec());
    let r1: [u8; 32] = [
        114, 227, 179, 76, 120, 34, 236, 42, 204, 27, 153, 74, 44, 29, 158, 162, 180, 202, 165,
        46, 155, 90, 178, 252, 127, 80, 162, 79, 3, 146, 153, 88,
    ];
    prng.set_word_pos(8);
    assert_eq!(prng.rand_bytes(), r1);
    prng.set_word_pos(8);
    assert_eq!(prng.rand_bytes(), r1);
    prng.set_word_pos(9);
    assert_ne!(prng.rand_bytes(), r1);
}

#[test]
fn draws_agree_with_one_unbroken_generator() {
    let mut prng = Prng::new(b"seed".to_vec(), b"entropy".to_vec());
    let mut straight = ContractPrng::new(b"seed", b"entropy");
    for _ in 0..40 {
        assert_eq!(prng.next_u64(), straight.next_u64());
    }
    assert_eq!(prng.rand_bytes(), straight.rand_bytes());
    let mut mine: Vec<u8> = (0u8..20).collect();
    let mut theirs: Vec<u8> = (0u8..20).collect();
    prng.shuffle(&mut mine);
    theirs.shuffle(&mut straight.rng);
    assert_eq!(mine, theirs);
    assert_ne!(mine, (0u8..20).collect::<Vec<u8>>());
    assert_eq!(prng.next_u64(), straight.next_u64());
    assert_eq!(prng.word_pos(), straight.rng.get_word_pos());
}

#[test]
fn extend_entropy_joins_its_parts() {
    let out = extend_entropy(1, 0x0102, &b"ab".to_vec(), &b"z".to_vec());
    assert_eq!(out, vec![0, 0, 0, 0, 0, 0, 0, 1, 0, 0, 0, 0, 0, 0, 1, 2, b'a', b'b', b'z']);
    let big = extend_entropy(u64::MAX, 0x0102030405060708, &vec![], &vec![]);
    assert_eq!(big, vec![255, 255, 255, 255, 255, 255, 255, 255, 1, 2, 3, 4, 5, 6, 7, 8]);
}

#[test]
fn decimal_string_writes_digits() {
    assert_eq!(decimal_string(0), "0");
    assert_eq!(decimal_string(7), "7");
    assert_eq!(decimal_string(10), "10");
    assert_eq!(decimal_string(4294967295), "4294967295");
    assert_eq!(decimal_string(u64::MAX), "18446744073709551615");
}

#[test]
fn texts_and_bytes_compare_by_content() {
    assert!(str_eq("Skull", "Skull"));
    assert!(!str_eq("Skull", "skull"));
    assert!(bytes_eq(&vec![1, 2], &vec![1, 2]));
    assert!(!bytes_eq(&vec![1, 2], &vec![1, 2, 3]));
    assert!(!bytes_eq(&vec![1, 2], &vec![1, 3]));
}
