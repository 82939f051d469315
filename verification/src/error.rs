//! The ways in which a message to the engine fails.
use vstd::prelude::*;

verus! {

/// Why a message was refused. A refused message changes nothing.
#[derive(Clone, Copy, Debug, PartialEq, Eq, Structural)]
pub enum EngineError {
    /// The caller is not allowed to do this.
    Unauthorized,
    /// The engine, or the part of it that was asked, is halted.
    Halted,
    /// No category has the name.
    UnknownCategory,
    /// The category has no variant of the name.
    UnknownVariant,
    /// A category of the name exists already.
    DuplicateCategory,
    /// The category has a variant of the name already.
    DuplicateVariant,
    /// No index is left for another category, variant or potion.
    IndexOverflow,
    /// The image holds an unrevealed category.
    NotFullyRevealed,
    /// A category that must be cleared has no variant named `None`.
    MissingNoneVariant,
    /// The image has no byte for a category that a layer touches.
    ImageTooShort,
    /// The registry lacks what an index refers to.
    StorageCorrupt,
    /// The variant has no dependencies to modify.
    UnknownDependency,
    /// Metadata holds both a token URI and an extension.
    Malformed,
    /// Neither a name nor an index was given.
    BadInput,
    /// More than five tokens were sent for staking.
    ListTooLong,
    /// A token sent for staking belongs to someone else.
    NotOwned,
    /// A first stake with no token would waste the first-stake bonus.
    EmptyFirstStake,
    /// No token of a first stake has cooled down: the bonus would be wasted.
    NoEligibleBonus,
    /// The caller has never staked.
    NeverStaked,
    /// The caller stakes nothing.
    NothingStaked,
    /// The caller owns none of the staked tokens any more.
    NoneOwned,
    /// No staked token has a charge.
    NoCharges,
    /// A staking table has no weight to draw from.
    NoWeight,
    /// A material has no staking table.
    MissingTable,
    /// An ingredient set has no member to draw.
    EmptySet,
    /// The name is not that of a known material, ingredient or set.
    UnknownName,
    /// A set occurs twice in one staking table.
    DuplicateName,
    /// A count went beyond what its type holds.
    LimitExceeded,
    /// Potions are taken one at a time.
    OnePotionOnly,
    /// The sender is not a potion contract.
    UnknownContract,
    /// No potion has the name.
    UnknownPotion,
    /// No winners have been drawn yet.
    NoRound,
    /// The partner's share is more than 100 percent.
    BadPercent,
    /// The token was rewound less than a cooldown ago.
    CooldownActive,
    /// The state to go back to holds an unrevealed category.
    PreviousNotRevealed,
    /// The token is as it was at its last save point.
    NothingToRewind,
}

} // verus!
