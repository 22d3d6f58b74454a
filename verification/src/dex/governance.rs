//! Settings, and the payment of routed fees.

use super::liquidity::valid_tier;
use super::state::{fee_escrow, value_or, DexState, Pallet};
use super::types::{
    make_transfer, plain_transfer, Effect, Error, Event, FeeRouting, MIN_LAUNCH_FEE_TIER,
};
use crate::accounts::canonical;
use crate::primitives::{AccountId, AssetKind, AssetPair, Balance, BlockNumber, Key, Preservation};
use vstd::prelude::*;

verus! {

/// Why a default split is refused, if it is. A tier the launchpad cannot seed
/// has no creator and no treasury to route to.
pub open spec fn routing_error(fee_tier: u32, routing: FeeRouting) -> Option<Error> {
    if !valid_tier(fee_tier) {
        Some(Error::InvalidFeeTier)
    } else if !routing.valid_for(fee_tier as int) {
        Some(Error::InvalidFeeRouting)
    } else if fee_tier < MIN_LAUNCH_FEE_TIER && (routing.creator_bps != 0 || routing.treasury_bps
        != 0) {
        Some(Error::InvalidFeeRouting)
    } else {
        None
    }
}

/// Why a creator claim is refused, if it is.
pub open spec fn claim_error(
    st: DexState,
    who: AccountId,
    asset: AssetKind,
    recipient: Option<AccountId>,
) -> Option<Error> {
    if recipient is None {
        Some(Error::NoCreatorForAsset)
    } else if recipient != Some(who) {
        Some(Error::NotCreatorFeeRecipient)
    } else if value_or(
        st.creator_fees_unclaimed,
        canonical(asset, st.config.native_asset),
        0,
    ) == 0 {
        Some(Error::ZeroAmount)
    } else {
        None
    }
}

/// What a creator claim asks of the world.
pub open spec fn claim_effects(st: DexState, who: AccountId, asset: AssetKind) -> Seq<Effect> {
    let pair = canonical(asset, st.config.native_asset);
    let amount = st.creator_fees_unclaimed[pair];
    seq![
        plain_transfer(
            st.config.native_asset,
            fee_escrow(),
            who,
            amount,
            Preservation::Expendable,
        ),
        Effect::Emit(Event::CreatorFeesClaimed { pool: pair, recipient: who, amount }),
    ]
}

/// What a withdrawal of protocol fees asks of the world.
pub open spec fn withdraw_effects(st: DexState) -> Seq<Effect> {
    seq![
        plain_transfer(
            st.config.native_asset,
            fee_escrow(),
            st.fee_recipient(),
            st.protocol_fees_unclaimed,
            Preservation::Expendable,
        ),
        Effect::Emit(
            Event::ProtocolFeesWithdrawn {
                recipient: st.fee_recipient(),
                amount: st.protocol_fees_unclaimed,
            },
        ),
    ]
}

/// One event and nothing else.
fn only(event: Event) -> (r: Vec<Effect>)
    ensures
        r@ == seq![Effect::Emit(event)],
{
    let mut effects: Vec<Effect> = Vec::new();
    effects.push(Effect::Emit(event));
    effects
}

impl Pallet {
    /// Set the bid window, in blocks.
    pub fn set_bid_window(&mut self, new_value: BlockNumber) -> (r: Result<Vec<Effect>, Error>)
        ensures
            match r {
                Ok(effects) => {
                    &&& new_value != 0
                    &&& effects@ == seq![Effect::Emit(Event::BidWindowUpdated { new_value })]
                    &&& final(self)@ == (DexState {
                        bid_window_blocks: Some(new_value),
                        ..old(self)@
                    })
                },
                Err(e) => {
                    &&& new_value == 0
                    &&& e == Error::InvalidAmount
                    &&& final(self)@ == old(self)@
                },
            },
    {
        if new_value == 0 {
            return Err(Error::InvalidAmount);
        }
        self.bid_window_blocks = Some(new_value);
        Ok(only(Event::BidWindowUpdated { new_value }))
    }

    /// Set the settlement window, in blocks.
    pub fn set_settlement_window(&mut self, new_value: BlockNumber) -> (r: Result<
        Vec<Effect>,
        Error,
    >)
        ensures
            match r {
                Ok(effects) => {
                    &&& new_value != 0
                    &&& effects@ == seq![Effect::Emit(Event::SettlementWindowUpdated { new_value })]
                    &&& final(self)@ == (DexState {
                        settlement_window_blocks: Some(new_value),
                        ..old(self)@
                    })
                },
                Err(e) => {
                    &&& new_value == 0
                    &&& e == Error::InvalidAmount
                    &&& final(self)@ == old(self)@
                },
            },
    {
        if new_value == 0 {
            return Err(Error::InvalidAmount);
        }
        self.settlement_window_blocks = Some(new_value);
        Ok(only(Event::SettlementWindowUpdated { new_value }))
    }

    /// Set the bond of solvers that register from now on.
    pub fn set_solver_bond_amount(&mut self, new_value: Balance) -> (r: Result<Vec<Effect>, Error>)
        ensures
            match r {
                Ok(effects) => {
                    &&& new_value != 0
                    &&& effects@ == seq![Effect::Emit(Event::SolverBondAmountUpdated { new_value })]
                    &&& final(self)@ == (DexState {
                        solver_bond_amount: Some(new_value),
                        ..old(self)@
                    })
                },
                Err(e) => {
                    &&& new_value == 0
                    &&& e == Error::InvalidAmount
                    &&& final(self)@ == old(self)@
                },
            },
    {
        if new_value == 0 {
            return Err(Error::InvalidAmount);
        }
        self.solver_bond_amount = Some(new_value);
        Ok(only(Event::SolverBondAmountUpdated { new_value }))
    }

    /// Set the split that pools of `fee_tier` get from now on. Pools that exist
    /// keep theirs.
    pub fn set_default_fee_routing(
        &mut self,
        fee_tier: u32,
        protocol_bps: u16,
        creator_bps: u16,
        treasury_bps: u16,
    ) -> (r: Result<Vec<Effect>, Error>)
        ensures
            ({
                let routing = FeeRouting { protocol_bps, creator_bps, treasury_bps };
                match r {
                    Ok(effects) => {
                        &&& routing_error(fee_tier, routing) is None
                        &&& effects@ == seq![
                            Effect::Emit(Event::DefaultFeeRoutingSet { fee_tier, routing }),
                        ]
                        &&& final(self)@ == (DexState {
                            default_fee_routing: old(self)@.default_fee_routing.insert(
                                fee_tier,
                                routing,
                            ),
                            ..old(self)@
                        })
                    },
                    Err(e) => {
                        &&& routing_error(fee_tier, routing) == Some(e)
                        &&& final(self)@ == old(self)@
                    },
                }
            }),
    {
        match Pallet::ensure_valid_fee_tier(fee_tier) {
            Ok(()) => {},
            Err(e) => return Err(e),
        }
        let routing = FeeRouting { protocol_bps, creator_bps, treasury_bps };
        if !routing.is_valid_for(fee_tier) {
            return Err(Error::InvalidFeeRouting);
        }
        if fee_tier < MIN_LAUNCH_FEE_TIER && (creator_bps != 0 || treasury_bps != 0) {
            return Err(Error::InvalidFeeRouting);
        }
        self.default_fee_routing.insert(fee_tier, routing);
        Ok(only(Event::DefaultFeeRoutingSet { fee_tier, routing }))
    }

    /// Set who receives protocol fees; `None` goes back to the default.
    pub fn set_protocol_fee_recipient(&mut self, recipient: Option<AccountId>) -> (r: Vec<Effect>)
        ensures
            r@ == seq![Effect::Emit(Event::ProtocolFeeRecipientSet { recipient })],
            final(self)@ == (DexState { protocol_fee_recipient: recipient, ..old(self)@ }),
    {
        self.protocol_fee_recipient = recipient;
        only(Event::ProtocolFeeRecipientSet { recipient })
    }

    /// Pay the accrued creator share of `asset`'s native pool to `who`, who must
    /// be its creator fee recipient on record.
    pub fn claim_pool_creator_fees(
        &mut self,
        who: &AccountId,
        asset: AssetKind,
        recipient: Option<AccountId>,
    ) -> (r: Result<Vec<Effect>, Error>)
        ensures
            match r {
                Ok(effects) => {
                    &&& claim_error(old(self)@, *who, asset, recipient) is None
                    &&& effects@ == claim_effects(old(self)@, *who, asset)
                    &&& final(self)@ == (DexState {
                        creator_fees_unclaimed: old(self)@.creator_fees_unclaimed.remove(
                            canonical(asset, old(self)@.config.native_asset),
                        ),
                        ..old(self)@
                    })
                },
                Err(e) => {
                    &&& claim_error(old(self)@, *who, asset, recipient) == Some(e)
                    &&& final(self)@ == old(self)@
                },
            },
    {
        let ghost st = self@;
        let owner: AccountId = match recipient {
            Some(r) => r,
            None => return Err(Error::NoCreatorForAsset),
        };
        if !who.same(&owner) {
            return Err(Error::NotCreatorFeeRecipient);
        }
        let native: AssetKind = self.config.native_asset;
        let pair: AssetPair = Pallet::canonical_pair(asset, native);
        let amount: u128 = match self.creator_fees_unclaimed.get(&pair) {
            Some(x) => x,
            None => 0,
        };
        if amount == 0 {
            return Err(Error::ZeroAmount);
        }
        self.creator_fees_unclaimed.remove(&pair);
        let mut effects: Vec<Effect> = Vec::new();
        effects.push(
            make_transfer(
                native,
                Pallet::fee_escrow_account(),
                *who,
                amount,
                Preservation::Expendable,
            ),
        );
        effects.push(
            Effect::Emit(Event::CreatorFeesClaimed { pool: pair, recipient: *who, amount }),
        );
        assert(effects@ =~= claim_effects(st, *who, asset));
        Ok(effects)
    }

    /// Who is given what when a chain starts: the fee escrow its minimum balance,
    /// unless it exists already, so that a slice of any size can reach it.
    pub fn genesis_endowment(existential_deposit: Balance, escrow_exists: bool) -> (r: Option<
        (AccountId, Balance),
    >)
        ensures
            r == (if escrow_exists {
                None
            } else {
                Some((fee_escrow(), existential_deposit))
            }),
    {
        if escrow_exists {
            None
        } else {
            Some((Pallet::fee_escrow_account(), existential_deposit))
        }
    }

    /// Pay every accrued protocol fee to its recipient.
    pub fn withdraw_protocol_fees(&mut self) -> (r: Result<Vec<Effect>, Error>)
        ensures
            match r {
                Ok(effects) => {
                    &&& old(self)@.protocol_fees_unclaimed != 0
                    &&& effects@ == withdraw_effects(old(self)@)
                    &&& final(self)@ == (DexState { protocol_fees_unclaimed: 0, ..old(self)@ })
                },
                Err(e) => {
                    &&& old(self)@.protocol_fees_unclaimed == 0
                    &&& e == Error::ZeroAmount
                    &&& final(self)@ == old(self)@
                },
            },
    {
        let ghost st = self@;
        let amount: u128 = self.protocol_fees_unclaimed;
        if amount == 0 {
            return Err(Error::ZeroAmount);
        }
        let recipient: AccountId = self.protocol_fee_recipient();
        self.protocol_fees_unclaimed = 0;
        let mut effects: Vec<Effect> = Vec::new();
        effects.push(
            make_transfer(
                self.config.native_asset,
                Pallet::fee_escrow_account(),
                recipient,
                amount,
                Preservation::Expendable,
            ),
        );
        effects.push(Effect::Emit(Event::ProtocolFeesWithdrawn { recipient, amount }));
        assert(effects@ =~= withdraw_effects(st));
        Ok(effects)
    }
}

} // verus!
