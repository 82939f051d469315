//! Game-logic engine of an NFT alchemy system: a trait registry with its
//! composition rules, a staking ledger with weighted rewards, potions,
//! raffles and rewinds, all over plain in-memory state.
pub mod alchemy;
pub mod alchemy_lite;
pub mod alchemy_query;
pub mod auth;
pub mod bonus;
pub mod consistency;
pub mod contracts;
pub mod dependencies;
pub mod error;
pub mod ledger;
pub mod metadata;
pub mod ownership;
pub mod potion;
pub mod prng;
pub mod raffle;
pub mod registry;
pub mod registry_edit;
pub mod registry_query;
pub mod reservoir;
pub mod revealed;
pub mod rewind;
pub mod roller;
pub mod staking;
pub mod svg_server;
pub mod text;
pub mod transmute;
pub mod validate;
pub mod weights;
pub mod yields;
