//! Which of the skulls that a user sent are the user's own.
use crate::reservoir::{contains_token, distinct, has_token, ids_of};
use crate::staking::IdImage;
use vstd::prelude::*;

verus! {

/// What the token contract tells of a skull: who owns it and what it was
/// minted as.
#[derive(Clone, Debug, PartialEq, Eq)]
pub struct ImageAnswer {
    pub token_id: String,
    pub owner: String,
    pub natural: Vec<u8>,
}

/// A skull that its owner sent, as plain values.
pub struct OwnedSkull {
    pub id: String,
    pub natural: Seq<u8>,
}

/// The token ids of a list of skulls.
pub open spec fn skull_ids(skulls: Seq<IdImage>) -> Seq<Seq<char>> {
    Seq::new(skulls.len(), |i: int| skulls[i].id@)
}

/// The skulls of a list of answers that belong to `owner`, and the token ids
/// of those that do not, each once and in the order of the answers.
pub open spec fn owned_spec(owner: Seq<char>, answers: Seq<ImageAnswer>) -> (
    Seq<OwnedSkull>,
    Seq<String>,
)
    decreases answers.len(),
{
    if answers.len() == 0 {
        (Seq::empty(), Seq::empty())
    } else {
        let (owned, not_owned) = owned_spec(owner, answers.drop_last());
        let answer = answers.last();
        if has_token(Seq::new(owned.len(), |i: int| owned[i].id@), answer.token_id@) || has_token(
            ids_of(not_owned),
            answer.token_id@,
        ) {
            (owned, not_owned)
        } else if answer.owner@ != owner {
            (owned, not_owned.push(answer.token_id))
        } else {
            (owned.push(OwnedSkull { id: answer.token_id, natural: answer.natural@ }), not_owned)
        }
    }
}

/// The skulls of a list as plain values.
pub open spec fn skull_pairs(skulls: Seq<IdImage>) -> Seq<OwnedSkull> {
    Seq::new(skulls.len(), |i: int| OwnedSkull { id: skulls[i].id, natural: skulls[i].natural@ })
}

/// Whether a list of skulls holds a token.
fn holds_skull(skulls: &Vec<IdImage>, token_id: &String) -> (found: bool)
    ensures
        found == has_token(skull_ids(skulls@), token_id@),
{
    let mut i: usize = 0;
    while i < skulls.len()
        invariant
            i <= skulls.len(),
            forall|k: int| 0 <= k < i ==> skull_ids(skulls@)[k] != token_id@,
        decreases skulls.len() - i,
    {
        if skulls[i].id == *token_id {
            assert(skull_ids(skulls@)[i as int] == token_id@);
            return true;
        }
        i += 1;
    }
    false
}

/// Sorts the skulls that a user sent into those that the user owns and
/// those that the user does not. A token that was sent twice counts once.
pub fn verify_ownership(owner: &String, answers: &Vec<ImageAnswer>) -> (sorted: (
    Vec<IdImage>,
    Vec<String>,
))
    ensures
        skull_pairs(sorted.0@) == owned_spec(owner@, answers@).0,
        sorted.1@ == owned_spec(owner@, answers@).1,
        distinct(skull_ids(sorted.0@)),
        distinct(ids_of(sorted.1@)),
        sorted.0@.len() + sorted.1@.len() <= answers@.len(),
        answers@.len() > 0 ==> sorted.0@.len() + sorted.1@.len() > 0,
{
    let mut owned: Vec<IdImage> = Vec::new();
    let mut not_owned: Vec<String> = Vec::new();
    let mut i: usize = 0;
    assert(answers@.subrange(0, 0) =~= Seq::<ImageAnswer>::empty());
    assert(skull_pairs(owned@) =~= Seq::empty());
    assert(not_owned@ =~= Seq::empty());
    while i < answers.len()
        invariant
            i <= answers.len(),
            skull_pairs(owned@) == owned_spec(owner@, answers@.subrange(0, i as int)).0,
            not_owned@ == owned_spec(owner@, answers@.subrange(0, i as int)).1,
            distinct(skull_ids(owned@)),
            distinct(ids_of(not_owned@)),
            owned@.len() + not_owned@.len() <= i,
            i > 0 ==> owned@.len() + not_owned@.len() > 0,
        decreases answers.len() - i,
    {
        let answer = &answers[i];
        let ghost pairs = skull_pairs(owned@);
        let ghost others = ids_of(not_owned@);
        let ghost ids = skull_ids(owned@);
        proof {
            let upto = answers@.subrange(0, i + 1);
            assert(upto.drop_last() =~= answers@.subrange(0, i as int));
            assert(upto.last() == *answer);
            assert(Seq::new(pairs.len(), |k: int| pairs[k].id@) =~= skull_ids(owned@));
        }
        if !holds_skull(&owned, &answer.token_id) && !contains_token(&not_owned, &answer.token_id) {
            if !(answer.owner == *owner) {
                not_owned.push(answer.token_id.clone());
                proof {
                    assert(ids_of(not_owned@) =~= others.push(answer.token_id@));
                    assert forall|a: int, b: int|
                        0 <= a < b < ids_of(not_owned@).len() implies #[trigger] ids_of(
                        not_owned@,
                    )[a] != #[trigger] ids_of(not_owned@)[b] by {
                        assert(ids_of(not_owned@)[a] == others[a]);
                        if b < others.len() {
                            assert(ids_of(not_owned@)[b] == others[b]);
                        }
                    }
                }
            } else {
                owned.push(
                    IdImage {
                        id: answer.token_id.clone(),
                        natural: crate::registry_edit::copy_bytes(&answer.natural),
                    },
                );
                proof {
                    assert(skull_pairs(owned@) =~= pairs.push(
                        OwnedSkull { id: answer.token_id, natural: answer.natural@ },
                    ));
                    assert forall|a: int, b: int|
                        0 <= a < b < skull_ids(owned@).len() implies #[trigger] skull_ids(
                        owned@,
                    )[a] != #[trigger] skull_ids(owned@)[b] by {
                        assert(skull_ids(owned@)[a] == ids[a]);
                        if b < ids.len() {
                            assert(skull_ids(owned@)[b] == ids[b]);
                        }
                    }
                }
            }
        }
        i += 1;
    }
    assert(answers@.subrange(0, answers@.len() as int) =~= answers@);
    (owned, not_owned)
}

} // verus!
