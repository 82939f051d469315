//! The potion contract: the potions it knows, the contracts it works with,
//! and what it does when a potion is sent to it.
use crate::auth::{
    add_addrs_to_auth, addresses, check_admin, contains_address, has_address,
    remove_addrs_from_auth, with_addresses, without_addresses, AuthLists,
};
use crate::error::EngineError;
use crate::potion::{
    apply_spec, changed_image, choose_spec, choose_variant, server_after, Application,
    ChosenVariant, ImageInfo, PotionInfo, PotionNameIdx,
    StoreContractInfo, StoredPotionInfo, VariantInfo,
};
use crate::prng::{extended_entropy, PrngModel};
use crate::registry::Registry;
use crate::registry_edit::copy_bytes;
use crate::text::bytes_eq;
use vstd::prelude::*;
use vstd::string::StringExecFns;

verus! {

/// The settings of the potion contract.
#[derive(Clone, Debug, PartialEq, Eq)]
pub struct State {
    /// The contract of the skulls.
    pub skulls: StoreContractInfo,
    /// The contracts whose tokens are potions.
    pub potion_contracts: Vec<StoreContractInfo>,
    /// The servers that transmute, by index.
    pub svg_contracts: Vec<StoreContractInfo>,
    /// How many potions are defined.
    pub potion_cnt: u16,
    /// The key with which the contract reads from others.
    pub v_key: String,
    /// Whether all alchemy is halted.
    pub halt: bool,
}

/// Something that the contract asks of another contract. The effects of a
/// message are to be carried out in their order.
#[derive(Clone, Debug, PartialEq, Eq)]
pub enum Effect {
    /// Register with a potion contract, to be told of potions sent.
    RegisterReceive { contract: StoreContractInfo },
    /// Set the contract's viewing key with a server.
    SetViewingKey { contract: StoreContractInfo },
    /// Give a skull new images.
    SetImageInfo { token_id: String, image_info: ImageInfo },
    /// Burn the potion that was applied.
    BurnNft { token_id: String, memo: String, contract: StoreContractInfo },
}

/// The potion contract.
#[derive(Clone, Debug, PartialEq, Eq)]
pub struct AlchemyLite {
    pub admins: Vec<Vec<u8>>,
    pub state: State,
    /// The potions, by index.
    pub potions: Vec<StoredPotionInfo>,
    /// The seed of the next draw.
    pub prng_seed: Vec<u8>,
}

/// The first potion of a name.
pub open spec fn potion_position(potions: Seq<StoredPotionInfo>, name: Seq<char>) -> Option<int>
    decreases potions.len(),
{
    if potions.len() == 0 {
        None
    } else if potions[0].name@ == name {
        Some(0)
    } else {
        match potion_position(potions.drop_first(), name) {
            Some(i) => Some(i + 1),
            None => None,
        }
    }
}

/// `potion_position` finds the first potion of the name and no other.
pub proof fn lemma_potion_position(potions: Seq<StoredPotionInfo>, name: Seq<char>)
    ensures
        match potion_position(potions, name) {
            Some(i) => 0 <= i < potions.len() && potions[i].name@ == name && forall|k: int|
                0 <= k < i ==> potions[k].name@ != name,
            None => forall|k: int| 0 <= k < potions.len() ==> potions[k].name@ != name,
        },
    decreases potions.len(),
{
    if potions.len() > 0 && potions[0].name@ != name {
        let rest = potions.drop_first();
        lemma_potion_position(rest, name);
        match potion_position(rest, name) {
            Some(i) => {
                assert forall|k: int| 0 <= k < i + 1 implies potions[k].name@ != name by {
                    if k > 0 {
                        assert(rest[k - 1].name@ != name);
                    }
                }
            },
            None => {
                assert forall|k: int| 0 <= k < potions.len() implies potions[k].name@ != name by {
                    if k > 0 {
                        assert(rest[k - 1].name@ != name);
                    }
                }
            },
        }
    }
}

/// The addresses of a list of contracts.
pub open spec fn contract_addresses(list: Seq<StoreContractInfo>) -> Seq<Seq<u8>> {
    Seq::new(list.len(), |i: int| list[i].address@)
}

/// The first contract of an address.
pub open spec fn contract_position(list: Seq<StoreContractInfo>, address: Seq<u8>) -> Option<int>
    decreases list.len(),
{
    if list.len() == 0 {
        None
    } else if list[0].address@ == address {
        Some(0)
    } else {
        match contract_position(list.drop_first(), address) {
            Some(i) => Some(i + 1),
            None => None,
        }
    }
}

/// `contract_position` finds the first contract of the address and no other.
pub proof fn lemma_contract_position(list: Seq<StoreContractInfo>, address: Seq<u8>)
    ensures
        match contract_position(list, address) {
            Some(i) => 0 <= i < list.len() && list[i].address@ == address && forall|k: int|
                0 <= k < i ==> list[k].address@ != address,
            None => forall|k: int| 0 <= k < list.len() ==> list[k].address@ != address,
        },
    decreases list.len(),
{
    if list.len() > 0 && list[0].address@ != address {
        let rest = list.drop_first();
        lemma_contract_position(rest, address);
        match contract_position(rest, address) {
            Some(i) => {
                assert forall|k: int| 0 <= k < i + 1 implies list[k].address@ != address by {
                    if k > 0 {
                        assert(rest[k - 1].address@ != address);
                    }
                }
            },
            None => {
                assert forall|k: int| 0 <= k < list.len() implies list[k].address@ != address by {
                    if k > 0 {
                        assert(rest[k - 1].address@ != address);
                    }
                }
            },
        }
    }
}

/// The first contract of an address.
pub fn find_contract(list: &Vec<StoreContractInfo>, address: &Vec<u8>) -> (found: Option<usize>)
    ensures
        match found {
            Some(i) => contract_position(list@, address@) == Some(i as int) && i < list@.len(),
            None => contract_position(list@, address@).is_none(),
        },
{
    let mut i: usize = 0;
    while i < list.len()
        invariant
            i <= list.len(),
            forall|k: int| 0 <= k < i ==> list@[k].address@ != address@,
        decreases list.len() - i,
    {
        if bytes_eq(&list[i].address, address) {
            proof {
                lemma_contract_position(list@, address@);
            }
            return Some(i);
        }
        i += 1;
    }
    proof {
        lemma_contract_position(list@, address@);
    }
    None
}

/// A copy of a contract.
pub fn copy_contract(contract: &StoreContractInfo) -> (copy: StoreContractInfo)
    ensures
        copy.code_hash == contract.code_hash,
        copy.address@ == contract.address@,
{
    StoreContractInfo {
        code_hash: contract.code_hash.clone(),
        address: copy_bytes(&contract.address),
    }
}

/// The memo of a burnt potion.
pub open spec fn burn_memo(skull: Seq<char>) -> Seq<char> {
    "Applied to Mystic Skull #"@ + skull
}

/// A potion sent to the contract, and what it is to be applied to.
pub struct PotionTransfer<'a> {
    /// What the server that draws the skull says of its kind.
    pub kind: crate::registry_query::SkullTypeResponse,
    /// The contract that sent the potion.
    pub sender: &'a Vec<u8>,
    /// Who owned the potion.
    pub from: &'a Vec<u8>,
    /// The potions sent.
    pub token_ids: &'a Vec<String>,
    /// The name of the potion, as its contract gives it.
    pub potion_name: &'a String,
    /// The skull to apply the potion to.
    pub skull: &'a String,
    /// The owner of the skull.
    pub owner: &'a Vec<u8>,
    /// The address of the server that draws the skull now.
    pub server_used: &'a String,
    /// The address of the server that transmutes for the potion.
    pub potion_server: &'a String,
    /// The entropy that the sender gave.
    pub entropy: &'a Vec<u8>,
    pub block_height: u64,
    pub block_time: u64,
}

impl AlchemyLite {
    /// The invariant of the contract: the potions are counted, no two have
    /// one name, and each names a server that the contract knows.
    pub open spec fn wf(&self) -> bool {
        &&& self.potions@.len() == self.state.potion_cnt
        &&& forall|i: int, j: int|
            0 <= i < j < self.potions@.len() ==> (#[trigger] self.potions@[i]).name@ != (
            #[trigger] self.potions@[j]).name@
        &&& forall|i: int|
            0 <= i < self.potions@.len() ==> (#[trigger] self.potions@[i]).svg_server
                < self.state.svg_contracts@.len()
    }

    /// Whether an address is an admin.
    pub open spec fn is_admin(&self, address: Seq<u8>) -> bool {
        has_address(addresses(self.admins@), address)
    }

    /// The index of the potion of a name.
    pub fn potion_index(&self, name: &String) -> (found: Option<usize>)
        ensures
            match found {
                Some(i) => potion_position(self.potions@, name@) == Some(i as int) && i
                    < self.potions@.len(),
                None => potion_position(self.potions@, name@).is_none(),
            },
    {
        let mut i: usize = 0;
        while i < self.potions.len()
            invariant
                i <= self.potions.len(),
                forall|k: int| 0 <= k < i ==> self.potions@[k].name@ != name@,
            decreases self.potions.len() - i,
        {
            if self.potions[i].name == *name {
                proof {
                    lemma_potion_position(self.potions@, name@);
                }
                return Some(i);
            }
            i += 1;
        }
        proof {
            lemma_potion_position(self.potions@, name@);
        }
        None
    }

    /// Why a potion that was sent cannot be applied before the skull is
    /// looked at, if it cannot: alchemy is halted; the sender is no potion
    /// contract; more or less than one potion was sent; the potion is not
    /// known; or the potion is halted.
    pub open spec fn receive_error(&self, sender: Seq<u8>, sent: nat, potion_name: Seq<char>) -> Option<
        EngineError,
    > {
        if self.state.halt {
            Some(EngineError::Halted)
        } else if contract_position(self.state.potion_contracts@, sender).is_none() {
            Some(EngineError::UnknownContract)
        } else if sent != 1 {
            Some(EngineError::OnePotionOnly)
        } else {
            match potion_position(self.potions@, potion_name) {
                None => Some(EngineError::UnknownPotion),
                Some(p) => if self.potions@[p].halt {
                    Some(EngineError::Halted)
                } else {
                    None
                },
            }
        }
    }

    /// Why a potion that a contract sent is turned away before the skull is
    /// looked at, if it is.
    pub fn receive_refusal(&self, sender: &Vec<u8>, sent: usize, potion_name: &String) -> (refusal:
        Option<EngineError>)
        ensures
            refusal == self.receive_error(sender@, sent as nat, potion_name@),
    {
        if self.state.halt {
            return Some(EngineError::Halted);
        }
        if find_contract(&self.state.potion_contracts, sender).is_none() {
            return Some(EngineError::UnknownContract);
        }
        if sent != 1 {
            return Some(EngineError::OnePotionOnly);
        }
        match self.potion_index(potion_name) {
            None => Some(EngineError::UnknownPotion),
            Some(p) => if self.potions[p].halt {
                Some(EngineError::Halted)
            } else {
                None
            },
        }
    }

    /// The first half of applying a potion where the server that transmutes
    /// is another contract: the potion is checked as
    /// `try_batch_receive_nft` checks it, and chooses a variant for the
    /// skull. Its layers are what the server is asked to transmute the
    /// current image of the skull with. Nothing changes yet.
    pub fn choose_potion(&self, transfer: &PotionTransfer, current: &Vec<u8>) -> (out: Result<
        ChosenVariant,
        EngineError,
    >)
        requires
            self.wf(),
        ensures
            match self.receive_error(
                transfer.sender@,
                transfer.token_ids@.len(),
                transfer.potion_name@,
            ) {
                Some(e) => out == Err::<ChosenVariant, EngineError>(e),
                None => {
                    let p = potion_position(self.potions@, transfer.potion_name@).unwrap();
                    match choose_spec(
                        self.potions@[p].variants@,
                        current@,
                        transfer.kind,
                        transfer.owner@,
                        transfer.from@,
                        PrngModel {
                            seed: self.prng_seed@,
                            entropy: extended_entropy(
                                transfer.block_height,
                                transfer.block_time,
                                transfer.from@,
                                transfer.entropy@,
                            ),
                            pos: 0,
                        },
                    ) {
                        Err(e) => out == Err::<ChosenVariant, EngineError>(e),
                        Ok((w, seed)) => out matches Ok(chosen) && chosen.variant == w && w
                            < self.potions@[p].variants@.len() && chosen.layers@
                            == self.potions@[p].variants@[w as int].layers@ && chosen.new_seed@
                            == seed,
                    }
                },
            },
    {
        if let Some(e) = self.receive_refusal(
            transfer.sender,
            transfer.token_ids.len(),
            transfer.potion_name,
        ) {
            return Err(e);
        }
        let p = match self.potion_index(transfer.potion_name) {
            Some(p) => p,
            None => {
                return Err(EngineError::UnknownPotion);
            },
        };
        let application = Application {
            kind: transfer.kind,
            owner: transfer.owner,
            from: transfer.from,
            entropy: transfer.entropy,
            block_height: transfer.block_height,
            block_time: transfer.block_time,
            server_used: transfer.server_used,
            potion_server: transfer.potion_server,
        };
        choose_variant(&self.potions[p], current, &self.prng_seed, &application)
    }

    /// The second half of applying a potion: `transmuted` is what the
    /// server made of the current image of the skull with the layers that
    /// the potion chose, and `new_seed` the seed that the choice left. Asked
    /// of other contracts are the new images of the skull, then the burning
    /// of the potion, and the seed is replaced. A potion that
    /// `try_batch_receive_nft` turns away before it looks at the skull is
    /// turned away here too, and nothing changes.
    pub fn finish_potion(
        &mut self,
        transfer: &PotionTransfer,
        image_info: ImageInfo,
        new_seed: Vec<u8>,
        transmuted: Vec<u8>,
    ) -> (out: Result<Vec<Effect>, EngineError>)
        requires
            old(self).wf(),
        ensures
            final(self).wf(),
            final(self).admins == old(self).admins,
            final(self).state == old(self).state,
            final(self).potions == old(self).potions,
            match old(self).receive_error(
                transfer.sender@,
                transfer.token_ids@.len(),
                transfer.potion_name@,
            ) {
                Some(e) => out == Err::<Vec<Effect>, EngineError>(e) && *final(self) == *old(self),
                None => out matches Ok(effects) && final(self).prng_seed == new_seed
                    && effects@.len() == 2 && (effects@[0] matches Effect::SetImageInfo {
                    token_id,
                    image_info: after,
                } && token_id@ == transfer.skull@ && after.current == transmuted
                    && after.previous@ == image_info.current@ && after.natural
                    == image_info.natural && server_after(
                    image_info.svg_server,
                    transfer.server_used@,
                    transfer.potion_server@,
                    after.svg_server,
                )) && (effects@[1] matches Effect::BurnNft { token_id, memo, contract }
                    && token_id@ == transfer.token_ids@[0]@ && memo@ == burn_memo(
                    transfer.skull@,
                ) && contract.address@ == transfer.sender@ && contract.code_hash
                    == old(self).state.potion_contracts@[contract_position(
                    old(self).state.potion_contracts@,
                    transfer.sender@,
                ).unwrap()].code_hash),
            },
    {
        if let Some(e) = self.receive_refusal(
            transfer.sender,
            transfer.token_ids.len(),
            transfer.potion_name,
        ) {
            return Err(e);
        }
        let c = match find_contract(&self.state.potion_contracts, transfer.sender) {
            Some(c) => c,
            None => {
                return Err(EngineError::UnknownContract);
            },
        };
        let application = Application {
            kind: transfer.kind,
            owner: transfer.owner,
            from: transfer.from,
            entropy: transfer.entropy,
            block_height: transfer.block_height,
            block_time: transfer.block_time,
            server_used: transfer.server_used,
            potion_server: transfer.potion_server,
        };
        proof {
            lemma_contract_position(self.state.potion_contracts@, transfer.sender@);
        }
        let contract = copy_contract(&self.state.potion_contracts[c]);
        let memo = String::from_str("Applied to Mystic Skull #").concat(transfer.skull.as_str());
        let mut effects: Vec<Effect> = Vec::new();
        effects.push(
            Effect::SetImageInfo {
                token_id: transfer.skull.clone(),
                image_info: changed_image(image_info, transmuted, &application),
            },
        );
        effects.push(Effect::BurnNft { token_id: transfer.token_ids[0].clone(), memo, contract });
        self.prng_seed = new_seed;
        Ok(effects)
    }

    /// Applies a potion that was sent to the contract. The potion must come
    /// alone, from a potion contract, and be known and not halted; its sender
    /// must own the skull, which must be fully revealed. One variant of the
    /// potion is drawn and its layers transmute the skull. Asked of other
    /// contracts are the new images of the skull, then the burning of the
    /// potion. The seed of the next draw replaces the seed. Where the potion
    /// is refused, nothing changes.
    ///
    /// `registry` is that of the server that transmutes for the potion.
    /// Where that server is another contract, `choose_potion` and
    /// `finish_potion` are the two halves of this function around the
    /// answer of the server.
    pub fn try_batch_receive_nft(
        &mut self,
        registry: &Registry,
        transfer: &PotionTransfer,
        image_info: ImageInfo,
    ) -> (out: Result<Vec<Effect>, EngineError>)
        requires
            old(self).wf(),
            registry.wf(),
        ensures
            final(self).wf(),
            final(self).admins == old(self).admins,
            final(self).state == old(self).state,
            final(self).potions == old(self).potions,
            match old(self).receive_error(
                transfer.sender@,
                transfer.token_ids@.len(),
                transfer.potion_name@,
            ) {
                Some(e) => out == Err::<Vec<Effect>, EngineError>(e) && *final(self) == *old(self),
                None => {
                    let p = potion_position(old(self).potions@, transfer.potion_name@).unwrap();
                    match apply_spec(
                        registry@,
                        old(self).potions@[p].variants@,
                        image_info.current@,
                        transfer.kind,
                        transfer.owner@,
                        transfer.from@,
                        PrngModel {
                            seed: old(self).prng_seed@,
                            entropy: extended_entropy(
                                transfer.block_height,
                                transfer.block_time,
                                transfer.from@,
                                transfer.entropy@,
                            ),
                            pos: 0,
                        },
                    ) {
                        Err(e) => out == Err::<Vec<Effect>, EngineError>(e) && *final(self) == *old(self),
                        Ok((w, image, seed)) => out matches Ok(effects) && final(self).prng_seed@
                            == seed && effects@.len() == 2 && (effects@[0] matches Effect::SetImageInfo {
                            token_id,
                            image_info: after,
                        } && token_id@ == transfer.skull@ && after.current@ == image
                            && after.previous@ == image_info.current@ && after.natural
                            == image_info.natural && server_after(
                            image_info.svg_server,
                            transfer.server_used@,
                            transfer.potion_server@,
                            after.svg_server,
                        )) && (effects@[1] matches Effect::BurnNft { token_id, memo, contract }
                            && token_id@ == transfer.token_ids@[0]@ && memo@ == burn_memo(
                            transfer.skull@,
                        ) && contract.address@ == transfer.sender@ && contract.code_hash
                            == old(self).state.potion_contracts@[contract_position(
                            old(self).state.potion_contracts@,
                            transfer.sender@,
                        ).unwrap()].code_hash),
                    }
                },
            },
    {
        let chosen = match self.choose_potion(transfer, &image_info.current) {
            Ok(c) => c,
            Err(e) => {
                return Err(e);
            },
        };
        let current = copy_bytes(&image_info.current);
        let transmuted = match registry.transmute(current, &chosen.layers) {
            Ok(image) => image,
            Err(e) => {
                return Err(e);
            },
        };
        self.finish_potion(transfer, image_info, chosen.new_seed, transmuted)
    }

    /// Halts one potion, or all alchemy, or lets it go on; for an admin.
    pub fn try_set_halt(&mut self, sender: &Vec<u8>, potion: &Option<String>, halt: bool) -> (out:
        Result<(), EngineError>)
        requires
            old(self).wf(),
        ensures
            final(self).wf(),
            final(self).admins == old(self).admins,
            final(self).prng_seed == old(self).prng_seed,
            match out {
                Ok(_) => old(self).is_admin(sender@) && (match potion {
                    Some(name) => potion_position(old(self).potions@, name@) matches Some(p)
                        && final(self).state == old(self).state && final(self).potions@ == old(self).potions@.update(
                        p,
                        StoredPotionInfo {
                            name: old(self).potions@[p].name,
                            svg_server: old(self).potions@[p].svg_server,
                            variants: old(self).potions@[p].variants,
                            halt,
                        },
                    ),
                    None => final(self).potions == old(self).potions && final(self).state.halt
                        == halt && final(self).state.skulls == old(self).state.skulls && final(self).state.potion_contracts == old(self).state.potion_contracts && final(self).state.svg_contracts == old(self).state.svg_contracts && final(self).state.potion_cnt == old(self).state.potion_cnt && final(self).state.v_key
                        == old(self).state.v_key,
                }),
                Err(e) => *final(self) == *old(self) && (if !old(self).is_admin(sender@) {
                    e == EngineError::Unauthorized
                } else {
                    e == EngineError::UnknownPotion && (potion matches Some(name)
                        && potion_position(old(self).potions@, name@).is_none())
                }),
            },
    {
        match check_admin(&self.admins, sender) {
            Ok(_) => {},
            Err(e) => {
                return Err(e);
            },
        }
        match potion {
            Some(name) => {
                let p = match self.potion_index(name) {
                    Some(p) => p,
                    None => {
                        return Err(EngineError::UnknownPotion);
                    },
                };
                let ghost before = self.potions@;
                self.potions[p].halt = halt;
                proof {
                    assert forall|i: int, j: int| 0 <= i < j < self.potions@.len() implies (
                    #[trigger] self.potions@[i]).name@ != (#[trigger] self.potions@[j]).name@ by {
                        assert(self.potions@[i].name == before[i].name);
                        assert(self.potions@[j].name == before[j].name);
                    }
                    assert forall|i: int| 0 <= i < self.potions@.len() implies (
                    #[trigger] self.potions@[i]).svg_server < self.state.svg_contracts@.len() by {
                        assert(self.potions@[i].svg_server == before[i].svg_server);
                    }
                }
            },
            None => {
                self.state.halt = halt;
            },
        }
        Ok(())
    }

    /// Takes potion contracts out of the list, for an admin. Returns
    /// whether the list changed.
    pub fn try_remove_ptn_contrs(&mut self, sender: &Vec<u8>, contracts_to_remove: &Vec<Vec<u8>>) -> (out:
        Result<bool, EngineError>)
        requires
            old(self).wf(),
        ensures
            final(self).wf(),
            final(self).admins == old(self).admins,
            final(self).potions == old(self).potions,
            final(self).prng_seed == old(self).prng_seed,
            final(self).state.svg_contracts == old(self).state.svg_contracts,
            final(self).state.halt == old(self).state.halt,
            final(self).state.potion_cnt == old(self).state.potion_cnt,
            match out {
                Ok(changed) => old(self).is_admin(sender@) && contract_addresses(
                    final(self).state.potion_contracts@,
                ) == crate::auth::without_addresses(
                    contract_addresses(old(self).state.potion_contracts@),
                    addresses(contracts_to_remove@),
                ) && changed == (final(self).state.potion_contracts@.len() != old(self).state.potion_contracts@.len()),
                Err(e) => e == EngineError::Unauthorized && !old(self).is_admin(sender@)
                    && *final(self) == *old(self),
            },
    {
        match check_admin(&self.admins, sender) {
            Ok(_) => {},
            Err(e) => {
                return Err(e);
            },
        }
        let ghost start = contract_addresses(self.state.potion_contracts@);
        let ghost less = addresses(contracts_to_remove@);
        let mut kept: Vec<StoreContractInfo> = Vec::new();
        let mut i: usize = 0;
        assert(start.subrange(0, 0) =~= Seq::<Seq<u8>>::empty());
        assert(contract_addresses(kept@) =~= Seq::<Seq<u8>>::empty());
        while i < self.state.potion_contracts.len()
            invariant
                i <= self.state.potion_contracts.len(),
                *self == *old(self),
                start == contract_addresses(self.state.potion_contracts@),
                less == addresses(contracts_to_remove@),
                contract_addresses(kept@) == crate::auth::without_addresses(
                    start.subrange(0, i as int),
                    less,
                ),
            decreases self.state.potion_contracts.len() - i,
        {
            let ghost head = contract_addresses(kept@);
            proof {
                assert(start.subrange(0, i + 1).drop_last() =~= start.subrange(0, i as int));
                assert(start.subrange(0, i + 1).last()
                    == self.state.potion_contracts@[i as int].address@);
            }
            if !contains_address(contracts_to_remove, &self.state.potion_contracts[i].address) {
                kept.push(copy_contract(&self.state.potion_contracts[i]));
                assert(contract_addresses(kept@) =~= head.push(
                    self.state.potion_contracts@[i as int].address@,
                ));
            }
            i += 1;
        }
        assert(start.subrange(0, start.len() as int) =~= start);
        let changed = kept.len() != self.state.potion_contracts.len();
        self.state.potion_contracts = kept;
        Ok(changed)
    }

    /// A page of the names of the potions with their indices: `page_size`
    /// potions (else 100) from the start of page `page` (else the first), or
    /// as many as are left.
    pub fn query_name_idx(&self, page: Option<u16>, page_size: Option<u16>) -> (out: (
        u16,
        Vec<PotionNameIdx>,
    ))
        requires
            self.wf(),
        ensures
            out.0 == self.state.potion_cnt,
            ({
                let limit = match page_size {
                    Some(l) => l as int,
                    None => 100,
                };
                let start = (match page {
                    Some(p) => p as int,
                    None => 0,
                }) * limit;
                let end = crate::registry_query::page_end(
                    start,
                    limit,
                    self.potions@.len() as int,
                );
                &&& out.1@.len() == (if start < end {
                    end - start
                } else {
                    0
                })
                &&& forall|k: int|
                    0 <= k < out.1@.len() ==> (#[trigger] out.1@[k]).index == start + k
                        && out.1@[k].name == self.potions@[start + k].name
            }),
    {
        let limit: u32 = match page_size {
            Some(l) => l as u32,
            None => 100,
        };
        let page: u32 = match page {
            Some(p) => p as u32,
            None => 0,
        };
        assert(page * limit <= 65535 * 65535) by (nonlinear_arith)
            requires
                page <= 65535,
                limit <= 65535,
        ;
        let start: u32 = page * limit;
        let count: u32 = self.state.potion_cnt as u32;
        let end: u32 = if start + limit < count {
            start + limit
        } else {
            count
        };
        let mut potions: Vec<PotionNameIdx> = Vec::new();
        let mut idx: u32 = start;
        while idx < end
            invariant
                end <= self.potions@.len(),
                self.potions@.len() <= 65535,
                start <= idx,
                start < end ==> idx <= end,
                start >= end ==> idx == start,
                potions@.len() == idx - start,
                forall|k: int|
                    0 <= k < potions@.len() ==> (#[trigger] potions@[k]).index == start + k
                        && potions@[k].name == self.potions@[start + k].name,
            decreases end - idx,
        {
            potions.push(
                PotionNameIdx { name: self.potions[idx as usize].name.clone(), index: idx as u16 },
            );
            idx += 1;
        }
        (self.state.potion_cnt, potions)
    }
}

/// Whether an effect asks the contract of an address to tell of potions
/// sent.
pub open spec fn registers(effect: Effect, address: Seq<u8>) -> bool {
    effect matches Effect::RegisterReceive { contract } && contract.address@ == address
}

/// Whether an effect sets the viewing key with the contract of an address.
pub open spec fn sets_key(effect: Effect, address: Seq<u8>) -> bool {
    effect matches Effect::SetViewingKey { contract } && contract.address@ == address
}

/// The most servers that potions can name.
pub const MAX_SERVERS: usize = 256;

impl AlchemyLite {
    /// Why a potion cannot be defined, if it cannot: no index is left for
    /// it, or none for its server.
    pub open spec fn set_potion_error(&self, potion: PotionInfo) -> Option<EngineError> {
        if potion_position(self.potions@, potion.name@).is_none() && self.state.potion_cnt
            == u16::MAX {
            Some(EngineError::IndexOverflow)
        } else if contract_position(self.state.svg_contracts@, potion.svg_server.address@).is_none()
            && self.state.svg_contracts@.len() >= MAX_SERVERS {
            Some(EngineError::IndexOverflow)
        } else if contract_position(self.state.svg_contracts@, potion.svg_server.address@) matches Some(
            i,
        ) && i >= MAX_SERVERS {
            Some(EngineError::IndexOverflow)
        } else {
            None
        }
    }

    /// Whether `after` is this contract with a potion defined: the potion
    /// stands at the index of its name, or at a new one; its server is known,
    /// and so is its contract where one was given; asked of other contracts
    /// is to be told of potions, then the viewing key, each only of a
    /// contract that was not known.
    pub open spec fn defined(
        &self,
        after: AlchemyLite,
        potion: PotionInfo,
        effects: Seq<Effect>,
        known: bool,
    ) -> bool {
        let idx = match potion_position(self.potions@, potion.name@) {
            Some(i) => i,
            None => self.potions@.len() as int,
        };
        let new_contracts = after.state.potion_contracts@.len()
            - self.state.potion_contracts@.len();
        let new_servers = after.state.svg_contracts@.len() - self.state.svg_contracts@.len();
        &&& known == potion_position(self.potions@, potion.name@).is_some()
        &&& after.potions@.len() == (if known {
            self.potions@.len()
        } else {
            self.potions@.len() + 1
        })
        &&& forall|k: int|
            0 <= k < self.potions@.len() && k != idx ==> after.potions@[k] == self.potions@[k]
        &&& after.potions@[idx].name@ == potion.name@
        &&& after.potions@[idx].variants == potion.variants
        &&& !after.potions@[idx].halt
        &&& contract_position(after.state.svg_contracts@, potion.svg_server.address@) == Some(
            after.potions@[idx].svg_server as int,
        )
        &&& contract_addresses(after.state.svg_contracts@) == crate::auth::with_addresses(
            contract_addresses(self.state.svg_contracts@),
            seq![potion.svg_server.address@],
        )
        &&& contract_addresses(after.state.potion_contracts@) == (match potion.potion_contract {
            Some(c) => crate::auth::with_addresses(
                contract_addresses(self.state.potion_contracts@),
                seq![c.address@],
            ),
            None => contract_addresses(self.state.potion_contracts@),
        })
        &&& 0 <= new_contracts <= 1
        &&& 0 <= new_servers <= 1
        &&& effects.len() == new_contracts + new_servers
        &&& new_contracts == 1 ==> registers(
            effects[0],
            after.state.potion_contracts@.last().address@,
        )
        &&& new_servers == 1 ==> sets_key(effects.last(), after.state.svg_contracts@.last().address@)
        &&& after.state.halt == self.state.halt
        &&& after.state.skulls == self.state.skulls
        &&& after.state.v_key == self.state.v_key
        &&& after.admins == self.admins
        &&& after.prng_seed == self.prng_seed
    }

    /// Adds potion contracts, each unless the contract knows one of its
    /// address, and asks each new one to tell of potions sent.
    pub fn add_ptn_contrs(&mut self, potion_contrs: &Vec<StoreContractInfo>) -> (effects: Vec<Effect>)
        requires
            old(self).wf(),
        ensures
            final(self).wf(),
            final(self).admins == old(self).admins,
            final(self).potions == old(self).potions,
            final(self).prng_seed == old(self).prng_seed,
            final(self).state.svg_contracts == old(self).state.svg_contracts,
            final(self).state.skulls == old(self).state.skulls,
            final(self).state.halt == old(self).state.halt,
            final(self).state.v_key == old(self).state.v_key,
            final(self).state.potion_cnt == old(self).state.potion_cnt,
            contract_addresses(final(self).state.potion_contracts@) == crate::auth::with_addresses(
                contract_addresses(old(self).state.potion_contracts@),
                contract_addresses(potion_contrs@),
            ),
            effects@.len() == final(self).state.potion_contracts@.len() - old(self).state.potion_contracts@.len(),
            forall|k: int|
                0 <= k < effects@.len() ==> registers(
                    #[trigger] effects@[k],
                    final(self).state.potion_contracts@[old(self).state.potion_contracts@.len()
                        + k].address@,
                ),
    {
        let mut effects: Vec<Effect> = Vec::new();
        let ghost start = contract_addresses(self.state.potion_contracts@);
        let ghost more = contract_addresses(potion_contrs@);
        let ghost first = self.state.potion_contracts@.len();
        let mut i: usize = 0;
        assert(more.subrange(0, 0) =~= Seq::<Seq<u8>>::empty());
        while i < potion_contrs.len()
            invariant
                i <= potion_contrs.len(),
                self.wf(),
                self.admins == old(self).admins,
                self.potions == old(self).potions,
                self.prng_seed == old(self).prng_seed,
                self.state.svg_contracts == old(self).state.svg_contracts,
                self.state.skulls == old(self).state.skulls,
                self.state.halt == old(self).state.halt,
                self.state.v_key == old(self).state.v_key,
                self.state.potion_cnt == old(self).state.potion_cnt,
                first == old(self).state.potion_contracts@.len(),
                more == contract_addresses(potion_contrs@),
                start == contract_addresses(old(self).state.potion_contracts@),
                contract_addresses(self.state.potion_contracts@) == crate::auth::with_addresses(
                    start,
                    more.subrange(0, i as int),
                ),
                effects@.len() == self.state.potion_contracts@.len() - first,
                forall|k: int|
                    0 <= k < effects@.len() ==> registers(
                        #[trigger] effects@[k],
                        self.state.potion_contracts@[first + k].address@,
                    ),
            decreases potion_contrs.len() - i,
        {
            let ghost head = contract_addresses(self.state.potion_contracts@);
            let ghost list = self.state.potion_contracts@;
            proof {
                assert(more.subrange(0, i + 1).drop_last() =~= more.subrange(0, i as int));
                assert(more.subrange(0, i + 1).last() == potion_contrs@[i as int].address@);
                lemma_contract_position(list, potion_contrs@[i as int].address@);
                if has_address(head, potion_contrs@[i as int].address@) {
                    let k = choose|k: int|
                        0 <= k < head.len() && head[k] == potion_contrs@[i as int].address@;
                    assert(list[k].address@ == potion_contrs@[i as int].address@);
                }
            }
            if find_contract(&self.state.potion_contracts, &potion_contrs[i].address).is_none() {
                self.state.potion_contracts.push(copy_contract(&potion_contrs[i]));
                effects.push(Effect::RegisterReceive { contract: copy_contract(&potion_contrs[i]) });
                proof {
                    assert(contract_addresses(self.state.potion_contracts@) =~= head.push(
                        potion_contrs@[i as int].address@,
                    ));
                    assert forall|k: int| 0 <= k < effects@.len() implies registers(
                        #[trigger] effects@[k],
                        self.state.potion_contracts@[first + k].address@,
                    ) by {
                        if k < effects@.len() - 1 {
                            assert(self.state.potion_contracts@[first + k] == list[first + k]);
                        }
                    }
                }
            } else {
                proof {
                    let k = contract_position(list, potion_contrs@[i as int].address@).unwrap();
                    assert(head[k] == potion_contrs@[i as int].address@);
                }
            }
            i += 1;
        }
        assert(more.subrange(0, more.len() as int) =~= more);
        effects
    }

    /// Adds servers, each unless the contract knows one of its address, and
    /// sets the contract's viewing key with each new one.
    pub fn add_svg_contrs(&mut self, svg_contrs: &Vec<StoreContractInfo>) -> (effects: Vec<Effect>)
        requires
            old(self).wf(),
        ensures
            final(self).wf(),
            final(self).admins == old(self).admins,
            final(self).potions == old(self).potions,
            final(self).prng_seed == old(self).prng_seed,
            final(self).state.potion_contracts == old(self).state.potion_contracts,
            final(self).state.skulls == old(self).state.skulls,
            final(self).state.halt == old(self).state.halt,
            final(self).state.v_key == old(self).state.v_key,
            final(self).state.potion_cnt == old(self).state.potion_cnt,
            contract_addresses(final(self).state.svg_contracts@) == crate::auth::with_addresses(
                contract_addresses(old(self).state.svg_contracts@),
                contract_addresses(svg_contrs@),
            ),
            final(self).state.svg_contracts@.len() >= old(self).state.svg_contracts@.len(),
            final(self).state.svg_contracts@.subrange(
                0,
                old(self).state.svg_contracts@.len() as int,
            ) == old(self).state.svg_contracts@,
            effects@.len() == final(self).state.svg_contracts@.len() - old(self).state.svg_contracts@.len(),
            forall|k: int|
                0 <= k < effects@.len() ==> sets_key(
                    #[trigger] effects@[k],
                    final(self).state.svg_contracts@[old(self).state.svg_contracts@.len()
                        + k].address@,
                ),
    {
        let mut effects: Vec<Effect> = Vec::new();
        let ghost start = contract_addresses(self.state.svg_contracts@);
        let ghost more = contract_addresses(svg_contrs@);
        let ghost first = self.state.svg_contracts@.len();
        let mut i: usize = 0;
        assert(more.subrange(0, 0) =~= Seq::<Seq<u8>>::empty());
        assert(self.state.svg_contracts@.subrange(0, first as int) =~= self.state.svg_contracts@);
        while i < svg_contrs.len()
            invariant
                i <= svg_contrs.len(),
                self.wf(),
                self.admins == old(self).admins,
                self.potions == old(self).potions,
                self.prng_seed == old(self).prng_seed,
                self.state.potion_contracts == old(self).state.potion_contracts,
                self.state.skulls == old(self).state.skulls,
                self.state.halt == old(self).state.halt,
                self.state.v_key == old(self).state.v_key,
                self.state.potion_cnt == old(self).state.potion_cnt,
                first == old(self).state.svg_contracts@.len(),
                first <= self.state.svg_contracts@.len(),
                self.state.svg_contracts@.subrange(0, first as int) == old(self).state.svg_contracts@,
                more == contract_addresses(svg_contrs@),
                start == contract_addresses(old(self).state.svg_contracts@),
                contract_addresses(self.state.svg_contracts@) == crate::auth::with_addresses(
                    start,
                    more.subrange(0, i as int),
                ),
                effects@.len() == self.state.svg_contracts@.len() - first,
                forall|k: int|
                    0 <= k < effects@.len() ==> sets_key(
                        #[trigger] effects@[k],
                        self.state.svg_contracts@[first + k].address@,
                    ),
            decreases svg_contrs.len() - i,
        {
            let ghost head = contract_addresses(self.state.svg_contracts@);
            let ghost list = self.state.svg_contracts@;
            proof {
                assert(more.subrange(0, i + 1).drop_last() =~= more.subrange(0, i as int));
                assert(more.subrange(0, i + 1).last() == svg_contrs@[i as int].address@);
                lemma_contract_position(list, svg_contrs@[i as int].address@);
                if has_address(head, svg_contrs@[i as int].address@) {
                    let k = choose|k: int|
                        0 <= k < head.len() && head[k] == svg_contrs@[i as int].address@;
                    assert(list[k].address@ == svg_contrs@[i as int].address@);
                }
            }
            if find_contract(&self.state.svg_contracts, &svg_contrs[i].address).is_none() {
                self.state.svg_contracts.push(copy_contract(&svg_contrs[i]));
                effects.push(Effect::SetViewingKey { contract: copy_contract(&svg_contrs[i]) });
                proof {
                    assert(contract_addresses(self.state.svg_contracts@) =~= head.push(
                        svg_contrs@[i as int].address@,
                    ));
                    assert(self.state.svg_contracts@.subrange(0, first as int) =~= list.subrange(
                        0,
                        first as int,
                    ));
                    assert forall|k: int| 0 <= k < effects@.len() implies sets_key(
                        #[trigger] effects@[k],
                        self.state.svg_contracts@[first + k].address@,
                    ) by {
                        if k < effects@.len() - 1 {
                            assert(self.state.svg_contracts@[first + k] == list[first + k]);
                        }
                    }
                }
            } else {
                proof {
                    let k = contract_position(list, svg_contrs@[i as int].address@).unwrap();
                    assert(head[k] == svg_contrs@[i as int].address@);
                }
            }
            i += 1;
        }
        assert(more.subrange(0, more.len() as int) =~= more);
        effects
    }

    /// Adds potion contracts and servers, for an admin.
    pub fn try_add_contracts(
        &mut self,
        sender: &Vec<u8>,
        potion_contracts: &Vec<StoreContractInfo>,
        svg_servers: &Vec<StoreContractInfo>,
    ) -> (out: Result<Vec<Effect>, EngineError>)
        requires
            old(self).wf(),
        ensures
            final(self).wf(),
            final(self).admins == old(self).admins,
            final(self).potions == old(self).potions,
            final(self).prng_seed == old(self).prng_seed,
            match out {
                Ok(effects) => old(self).is_admin(sender@) && contract_addresses(
                    final(self).state.potion_contracts@,
                ) == crate::auth::with_addresses(
                    contract_addresses(old(self).state.potion_contracts@),
                    contract_addresses(potion_contracts@),
                ) && contract_addresses(final(self).state.svg_contracts@)
                    == crate::auth::with_addresses(
                    contract_addresses(old(self).state.svg_contracts@),
                    contract_addresses(svg_servers@),
                ) && ({
                    let contracts = final(self).state.potion_contracts@.len() - old(self).state.potion_contracts@.len();
                    let servers = final(self).state.svg_contracts@.len() - old(self).state.svg_contracts@.len();
                    &&& effects@.len() == contracts + servers
                    &&& forall|k: int|
                        0 <= k < contracts ==> registers(
                            #[trigger] effects@[k],
                            final(self).state.potion_contracts@[old(self).state.potion_contracts@.len() + k].address@,
                        )
                    &&& forall|k: int|
                        0 <= k < servers ==> sets_key(
                            #[trigger] effects@[contracts + k],
                            final(self).state.svg_contracts@[old(self).state.svg_contracts@.len()
                                + k].address@,
                        )
                }),
                Err(e) => e == EngineError::Unauthorized && !old(self).is_admin(sender@)
                    && *final(self) == *old(self),
            },
    {
        match check_admin(&self.admins, sender) {
            Ok(_) => {},
            Err(e) => {
                return Err(e);
            },
        }
        let mut effects = self.add_ptn_contrs(potion_contracts);
        let ghost first = effects@;
        let mut more = self.add_svg_contrs(svg_servers);
        let ghost second = more@;
        effects.append(&mut more);
        proof {
            assert forall|k: int| 0 <= k < second.len() implies effects@[first.len() + k]
                == second[k] by {}
        }
        Ok(effects)
    }

    /// Defines a potion, or defines it anew where the contract knows a
    /// potion of its name. Returns what is asked of other contracts, and
    /// whether the potion was known. Where the potion is refused, nothing
    /// changes.
    pub fn set_potion(&mut self, potion: PotionInfo) -> (out: Result<(Vec<Effect>, bool), EngineError>)
        requires
            old(self).wf(),
        ensures
            final(self).wf(),
            final(self).admins == old(self).admins,
            final(self).prng_seed == old(self).prng_seed,
            match old(self).set_potion_error(potion) {
                Some(e) => out == Err::<(Vec<Effect>, bool), EngineError>(e) && *final(self) == *old(self),
                None => out matches Ok((effects, known)) && old(self).defined(
                    *final(self),
                    potion,
                    effects@,
                    known,
                ),
            },
    {
        let found = self.potion_index(&potion.name);
        if found.is_none() && self.state.potion_cnt == u16::MAX {
            return Err(EngineError::IndexOverflow);
        }
        proof {
            lemma_contract_position(self.state.svg_contracts@, potion.svg_server.address@);
            lemma_potion_position(self.potions@, potion.name@);
        }
        match find_contract(&self.state.svg_contracts, &potion.svg_server.address) {
            Some(i) => {
                if i >= MAX_SERVERS {
                    return Err(EngineError::IndexOverflow);
                }
            },
            None => {
                if self.state.svg_contracts.len() >= MAX_SERVERS {
                    return Err(EngineError::IndexOverflow);
                }
            },
        }
        let PotionInfo { name, potion_contract, svg_server, variants } = potion;
        let mut effects = match &potion_contract {
            Some(contract) => {
                let mut one: Vec<StoreContractInfo> = Vec::new();
                one.push(copy_contract(contract));
                assert(contract_addresses(one@) =~= seq![contract.address@]);
                self.add_ptn_contrs(&one)
            },
            None => Vec::new(),
        };
        let mut servers: Vec<StoreContractInfo> = Vec::new();
        servers.push(copy_contract(&svg_server));
        assert(contract_addresses(servers@) =~= seq![svg_server.address@]);
        let ghost before_servers = self.state.svg_contracts@;
        let ghost first = effects@;
        let ghost new_contracts = self.state.potion_contracts@.len() - old(self).state.potion_contracts@.len();
        proof {
            reveal_with_fuel(crate::auth::with_addresses, 2);
            assert(contract_addresses(self.state.potion_contracts@).len()
                == self.state.potion_contracts@.len());
            assert(contract_addresses(old(self).state.potion_contracts@).len() == old(self).state.potion_contracts@.len());
            assert(0 <= new_contracts <= 1);
        }
        let mut more = self.add_svg_contrs(&servers);
        let ghost second = more@;
        effects.append(&mut more);
        proof {
            reveal_with_fuel(crate::auth::with_addresses, 2);
            assert(contract_addresses(self.state.svg_contracts@).len()
                == self.state.svg_contracts@.len());
            assert(contract_addresses(before_servers).len() == before_servers.len());
            assert(second.len() <= 1);
            if new_contracts == 1 {
                assert(effects@[0] == first[0]);
            }
            if second.len() == 1 {
                assert(effects@.last() == second[0]);
            }
            lemma_contract_position(self.state.svg_contracts@, svg_server.address@);
            if contract_position(before_servers, svg_server.address@).is_none() {
                assert(!has_address(contract_addresses(before_servers), svg_server.address@)) by {
                    if has_address(contract_addresses(before_servers), svg_server.address@) {
                        let k = choose|k: int|
                            0 <= k < before_servers.len() && contract_addresses(before_servers)[k]
                                == svg_server.address@;
                        assert(before_servers[k].address@ == svg_server.address@);
                    }
                }
                let grown = contract_addresses(before_servers).push(svg_server.address@);
                assert(contract_addresses(self.state.svg_contracts@) == grown);
                assert(grown.len() == before_servers.len() + 1);
                assert(self.state.svg_contracts@.len() == before_servers.len() + 1);
                assert(contract_addresses(self.state.svg_contracts@)[before_servers.len() as int]
                    == svg_server.address@);
                assert(self.state.svg_contracts@[before_servers.len() as int].address@
                    == svg_server.address@);
                assert(contract_position(self.state.svg_contracts@, svg_server.address@).is_some());
            } else {
                let k = contract_position(before_servers, svg_server.address@).unwrap();
                lemma_contract_position(before_servers, svg_server.address@);
                assert(self.state.svg_contracts@.subrange(0, before_servers.len() as int)[k]
                    == before_servers[k]);
                assert(self.state.svg_contracts@[k].address@ == svg_server.address@);
                assert(contract_position(self.state.svg_contracts@, svg_server.address@).is_some());
            }
        }
        let server = match find_contract(&self.state.svg_contracts, &svg_server.address) {
            Some(i) => i,
            None => {
                proof {
                    assert(false);
                }
                0
            },
        };
        proof {
            assert(server < MAX_SERVERS) by {
                if contract_position(before_servers, svg_server.address@).is_some() {
                    let k = contract_position(before_servers, svg_server.address@).unwrap();
                    assert(self.state.svg_contracts@.subrange(0, before_servers.len() as int)[k]
                        == before_servers[k]);
                    assert(self.state.svg_contracts@[k].address@ == svg_server.address@);
                }
            }
        }
        let stored = StoredPotionInfo { name, svg_server: server as u8, variants, halt: false };
        let ghost before = self.potions@;
        match found {
            Some(i) => {
                self.potions[i] = stored;
                proof {
                    assert forall|a: int, b: int| 0 <= a < b < self.potions@.len() implies (
                    #[trigger] self.potions@[a]).name@ != (#[trigger] self.potions@[b]).name@ by {
                        assert(self.potions@[a].name@ == before[a].name@);
                        assert(self.potions@[b].name@ == before[b].name@);
                    }
                }
            },
            None => {
                self.potions.push(stored);
                self.state.potion_cnt = self.state.potion_cnt + 1;
                proof {
                    assert forall|a: int, b: int| 0 <= a < b < self.potions@.len() implies (
                    #[trigger] self.potions@[a]).name@ != (#[trigger] self.potions@[b]).name@ by {
                        assert(self.potions@[a] == before[a]);
                        if b < before.len() {
                            assert(self.potions@[b] == before[b]);
                        }
                    }
                }
            },
        }
        proof {
            assert forall|k: int| 0 <= k < self.potions@.len() implies (
            #[trigger] self.potions@[k]).svg_server < self.state.svg_contracts@.len() by {
                if k < before.len() && self.potions@[k] == before[k] {
                    assert(before[k].svg_server < before_servers.len());
                }
            }
        }
        Ok((effects, found.is_some()))
    }

    /// Defines a potion, for an admin. Returns what is asked of other
    /// contracts, the number of potions, and whether the potion was known.
    pub fn try_set_potion(&mut self, sender: &Vec<u8>, potion: PotionInfo) -> (out: Result<
        (Vec<Effect>, u16, bool),
        EngineError,
    >)
        requires
            old(self).wf(),
        ensures
            final(self).wf(),
            final(self).admins == old(self).admins,
            final(self).prng_seed == old(self).prng_seed,
            match out {
                Ok((effects, count, known)) => old(self).is_admin(sender@) && old(self).set_potion_error(potion).is_none() && count == final(self).potions@.len()
                    && old(self).defined(*final(self), potion, effects@, known),
                Err(e) => *final(self) == *old(self) && (if !old(self).is_admin(sender@) {
                    e == EngineError::Unauthorized
                } else {
                    old(self).set_potion_error(potion) == Some(e)
                }),
            },
    {
        match check_admin(&self.admins, sender) {
            Ok(_) => {},
            Err(e) => {
                return Err(e);
            },
        }
        match self.set_potion(potion) {
            Ok((effects, known)) => Ok((effects, self.state.potion_cnt, known)),
            Err(e) => Err(e),
        }
    }
}

/// A potion as it is shown.
#[derive(Clone, Debug, PartialEq, Eq)]
pub struct ShownPotion {
    pub halted: bool,
    pub name: String,
    /// The server that transmutes for the potion.
    pub svg_server: StoreContractInfo,
    pub variants: Vec<VariantInfo>,
}

/// A copy of a list of potion variants.
pub fn copy_potion_variants(list: &Vec<VariantInfo>) -> (copy: Vec<VariantInfo>)
    ensures
        copy@.len() == list@.len(),
        forall|i: int|
            0 <= i < list@.len() ==> (#[trigger] copy@[i]).layers@ == list@[i].layers@
                && copy@[i].normal_weight == list@[i].normal_weight && copy@[i].jawless_weight
                == list@[i].jawless_weight && copy@[i].cyclops_weight == list@[i].cyclops_weight,
{
    let mut copy: Vec<VariantInfo> = Vec::new();
    let mut i: usize = 0;
    while i < list.len()
        invariant
            i <= list.len(),
            copy@.len() == i,
            forall|k: int|
                0 <= k < i ==> (#[trigger] copy@[k]).layers@ == list@[k].layers@
                    && copy@[k].normal_weight == list@[k].normal_weight && copy@[k].jawless_weight
                    == list@[k].jawless_weight && copy@[k].cyclops_weight
                    == list@[k].cyclops_weight,
        decreases list.len() - i,
    {
        let v = &list[i];
        copy.push(
            VariantInfo {
                layers: crate::potion::copy_layer_names(&v.layers),
                normal_weight: v.normal_weight,
                jawless_weight: v.jawless_weight,
                cyclops_weight: v.cyclops_weight,
            },
        );
        i += 1;
    }
    copy
}

impl AlchemyLite {
    /// A new potion contract, with the seed that the entropy gives. Its
    /// creator is an admin, with the other admins named. It knows no potion,
    /// no potion contract and no server.
    pub fn init(
        creator: &Vec<u8>,
        admins: &Vec<Vec<u8>>,
        skulls: StoreContractInfo,
        v_key: String,
        entropy: &Vec<u8>,
    ) -> (contract: AlchemyLite)
        requires
            entropy@.len() <= usize::MAX / 2,
        ensures
            contract.wf(),
            addresses(contract.admins@) == with_addresses(seq![creator@], addresses(admins@)),
            contract.prng_seed@ == crate::prng::sha256(crate::prng::base64_text(entropy@)),
            contract.state.skulls == skulls,
            contract.state.v_key == v_key,
            !contract.state.halt,
            contract.state.potion_cnt == 0,
            contract.state.potion_contracts@.len() == 0,
            contract.state.svg_contracts@.len() == 0,
            contract.potions@.len() == 0,
    {
        let lists = AuthLists::new(creator, admins);
        let seed = crate::prng::initial_seed(entropy);
        let mut prng_seed: Vec<u8> = Vec::new();
        let mut b: usize = 0;
        while b < 32
            invariant
                b <= 32,
                prng_seed@ =~= seed@.subrange(0, b as int),
            decreases 32 - b,
        {
            prng_seed.push(seed[b]);
            b += 1;
        }
        assert(seed@.subrange(0, 32) =~= seed@);
        AlchemyLite {
            admins: lists.admins,
            state: State {
                skulls,
                potion_contracts: Vec::new(),
                svg_contracts: Vec::new(),
                potion_cnt: 0,
                v_key,
                halt: false,
            },
            potions: Vec::new(),
            prng_seed,
        }
    }

    /// Adds admins, for an admin. Returns whether the list changed.
    pub fn try_add_admins(&mut self, sender: &Vec<u8>, admins_to_add: &Vec<Vec<u8>>) -> (out: Result<
        bool,
        EngineError,
    >)
        ensures
            final(self).state == old(self).state,
            final(self).potions == old(self).potions,
            final(self).prng_seed == old(self).prng_seed,
            match out {
                Ok(changed) => old(self).is_admin(sender@) && addresses(final(self).admins@)
                    == with_addresses(addresses(old(self).admins@), addresses(admins_to_add@))
                    && changed == (final(self).admins@.len() != old(self).admins@.len()),
                Err(e) => e == EngineError::Unauthorized && !old(self).is_admin(sender@)
                    && *final(self) == *old(self),
            },
    {
        match check_admin(&self.admins, sender) {
            Ok(_) => {},
            Err(e) => {
                return Err(e);
            },
        }
        Ok(add_addrs_to_auth(&mut self.admins, admins_to_add))
    }

    /// Takes admins out of the list, for an admin. Returns whether the list
    /// changed.
    pub fn try_remove_admins(&mut self, sender: &Vec<u8>, admins_to_remove: &Vec<Vec<u8>>) -> (out:
        Result<bool, EngineError>)
        ensures
            final(self).state == old(self).state,
            final(self).potions == old(self).potions,
            final(self).prng_seed == old(self).prng_seed,
            match out {
                Ok(changed) => old(self).is_admin(sender@) && addresses(final(self).admins@)
                    == without_addresses(
                    addresses(old(self).admins@),
                    addresses(admins_to_remove@),
                ) && changed == (final(self).admins@.len() != old(self).admins@.len()),
                Err(e) => e == EngineError::Unauthorized && !old(self).is_admin(sender@)
                    && *final(self) == *old(self),
            },
    {
        match check_admin(&self.admins, sender) {
            Ok(_) => {},
            Err(e) => {
                return Err(e);
            },
        }
        Ok(remove_addrs_from_auth(&mut self.admins, admins_to_remove))
    }

    /// The potion that a query names, for an admin: the one of the index,
    /// else the one of the name.
    pub fn query_potion(&self, querier: &Vec<u8>, name: &Option<String>, index: Option<u16>) -> (out:
        Result<ShownPotion, EngineError>)
        requires
            self.wf(),
        ensures
            if !self.is_admin(querier@) {
                out == Err::<ShownPotion, EngineError>(EngineError::Unauthorized)
            } else {
                let asked: Result<int, EngineError> = match index {
                    Some(i) => if i < self.potions@.len() {
                        Ok(i as int)
                    } else {
                        Err(EngineError::StorageCorrupt)
                    },
                    None => match name {
                        Some(n) => match potion_position(self.potions@, n@) {
                            Some(i) => Ok(i),
                            None => Err(EngineError::UnknownPotion),
                        },
                        None => Err(EngineError::BadInput),
                    },
                };
                match asked {
                    Err(e) => out == Err::<ShownPotion, EngineError>(e),
                    Ok(i) => out matches Ok(shown) && {
                        let kept = self.potions@[i];
                        &&& shown.halted == kept.halt
                        &&& shown.name == kept.name
                        &&& shown.svg_server.address@
                            == self.state.svg_contracts@[kept.svg_server as int].address@
                        &&& shown.svg_server.code_hash
                            == self.state.svg_contracts@[kept.svg_server as int].code_hash
                        &&& shown.variants@.len() == kept.variants@.len()
                        &&& forall|k: int|
                            0 <= k < kept.variants@.len() ==> (#[trigger] shown.variants@[k]).layers@
                                == kept.variants@[k].layers@ && shown.variants@[k].normal_weight
                                == kept.variants@[k].normal_weight
                                && shown.variants@[k].jawless_weight
                                == kept.variants@[k].jawless_weight
                                && shown.variants@[k].cyclops_weight
                                == kept.variants@[k].cyclops_weight
                    },
                }
            },
    {
        match check_admin(&self.admins, querier) {
            Ok(_) => {},
            Err(e) => {
                return Err(e);
            },
        }
        let i: usize = match index {
            Some(i) => {
                if i as usize >= self.potions.len() {
                    return Err(EngineError::StorageCorrupt);
                }
                i as usize
            },
            None => match name {
                Some(n) => match self.potion_index(n) {
                    Some(i) => i,
                    None => {
                        return Err(EngineError::UnknownPotion);
                    },
                },
                None => {
                    return Err(EngineError::BadInput);
                },
            },
        };
        let kept = &self.potions[i];
        Ok(
            ShownPotion {
                halted: kept.halt,
                name: kept.name.clone(),
                svg_server: copy_contract(&self.state.svg_contracts[kept.svg_server as usize]),
                variants: copy_potion_variants(&kept.variants),
            },
        )
    }
}

} // verus!
