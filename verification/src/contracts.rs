//! The contracts that the staking contract works with: the server of the
//! traits, the contract of the skulls, and the contracts that crate
//! ingredients.
use crate::alchemy_lite::{contract_position, copy_contract, find_contract, lemma_contract_position};
use crate::auth::{addresses, check_admin, has_address};
use crate::error::EngineError;
use crate::potion::StoreContractInfo;
use vstd::prelude::*;

verus! {

/// The contracts that the staking contract works with.
#[derive(Clone, Debug, PartialEq, Eq)]
pub struct Contracts {
    /// The server of the traits.
    pub svg_server: StoreContractInfo,
    /// The contract of the skulls.
    pub skulls: StoreContractInfo,
    /// The contracts that crate ingredients, no two of one address.
    pub crates: Vec<StoreContractInfo>,
}

/// A list of crating contracts with one more: its code hash replaces that of
/// the first contract of its address, and where there is none, the contract
/// is added at the end.
pub open spec fn with_crate(list: Seq<StoreContractInfo>, added: StoreContractInfo) -> Seq<
    StoreContractInfo,
> {
    match contract_position(list, added.address@) {
        Some(i) => list.update(
            i,
            StoreContractInfo { code_hash: added.code_hash, address: list[i].address },
        ),
        None => list.push(added),
    }
}

/// The contracts that a new viewing key is set with: the new server, then
/// the new contract of the skulls.
pub open spec fn keyed(
    svg_server: Option<StoreContractInfo>,
    skulls: Option<StoreContractInfo>,
) -> Seq<StoreContractInfo> {
    let first = match svg_server {
        Some(c) => seq![c],
        None => Seq::empty(),
    };
    match skulls {
        Some(c) => first.push(c),
        None => first,
    }
}

/// The code hash and the address of each contract of a list.
pub open spec fn shown(list: Seq<StoreContractInfo>) -> Seq<(Seq<char>, Seq<u8>)> {
    Seq::new(list.len(), |i: int| (list[i].code_hash@, list[i].address@))
}

impl Contracts {
    /// Replaces the server and the contract of the skulls where new ones are
    /// given, and adds a crating contract or replaces its code hash; for an
    /// admin. Returned are the contracts that the viewing key of the staking
    /// contract is to be set with. Where the sender is no admin, nothing
    /// changes.
    pub fn try_set_contracts(
        &mut self,
        admins: &Vec<Vec<u8>>,
        sender: &Vec<u8>,
        svg_server: Option<StoreContractInfo>,
        skulls: Option<StoreContractInfo>,
        crate_contract: Option<StoreContractInfo>,
    ) -> (out: Result<Vec<StoreContractInfo>, EngineError>)
        ensures
            if has_address(addresses(admins@), sender@) {
                &&& out matches Ok(keys)
                &&& shown(keys@) == shown(keyed(svg_server, skulls))
                &&& final(self).svg_server == (match svg_server {
                    Some(c) => c,
                    None => old(self).svg_server,
                })
                &&& final(self).skulls == (match skulls {
                    Some(c) => c,
                    None => old(self).skulls,
                })
                &&& final(self).crates@ == (match crate_contract {
                    Some(c) => with_crate(old(self).crates@, c),
                    None => old(self).crates@,
                })
            } else {
                out == Err::<Vec<StoreContractInfo>, EngineError>(EngineError::Unauthorized)
                    && *final(self) == *old(self)
            },
    {
        match check_admin(admins, sender) {
            Ok(_) => {},
            Err(e) => {
                return Err(e);
            },
        }
        let mut keys: Vec<StoreContractInfo> = Vec::new();
        if let Some(c) = svg_server {
            keys.push(copy_contract(&c));
            self.svg_server = c;
        }
        if let Some(c) = skulls {
            keys.push(copy_contract(&c));
            self.skulls = c;
        }
        assert(shown(keys@) =~= shown(keyed(svg_server, skulls)));
        if let Some(c) = crate_contract {
            match find_contract(&self.crates, &c.address) {
                Some(i) => {
                    self.crates[i].code_hash = c.code_hash;
                },
                None => {
                    self.crates.push(c);
                },
            }
        }
        Ok(keys)
    }
}

/// After a crating contract was set, the list holds its code hash under its
/// address, and every contract of another address is as it was.
pub proof fn lemma_with_crate(list: Seq<StoreContractInfo>, added: StoreContractInfo)
    ensures
        match contract_position(with_crate(list, added), added.address@) {
            Some(i) => with_crate(list, added)[i].code_hash == added.code_hash,
            None => false,
        },
        forall|k: int|
            0 <= k < list.len() && list[k].address@ != added.address@ ==> with_crate(list, added)[k]
                == list[k],
{
    let after = with_crate(list, added);
    lemma_contract_position(list, added.address@);
    lemma_contract_position(after, added.address@);
    match contract_position(list, added.address@) {
        Some(i) => {
            assert(after[i].address@ == added.address@);
        },
        None => {
            assert(after[list.len() as int].address@ == added.address@);
        },
    }
}

} // verus!
