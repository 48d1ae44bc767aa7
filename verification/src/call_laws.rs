//! What each call on a multi-asset channel answers and leaves behind, in terms
//! of the values that stand in storage and in the call's own arguments.

use vstd::prelude::*;

use crate::address::Address;
use crate::bytes;
use crate::channel_laws;
use crate::dispute;
use crate::error::Error;
use crate::multi_asset;
use crate::multi_asset::{
    BalanceRecord, ChannelEnv, ChannelEnvView, ChannelPhase, ChannelView, DataKey, Effect,
    EffectView, MultiAssetChannel, MultiAssetState, StateView,
};
use crate::sorted_map;
use crate::token::Transfer;
use crate::xdr;

verus! {

/// `asset` is one of `assets`.
pub open spec fn holds(assets: Seq<(Address, BalanceRecord)>, asset: Address) -> bool {
    exists|k: int| 0 <= k < assets.len() && (#[trigger] assets[k]).0 == asset
}

/// `balance` lies within the deposit of `asset`.
pub open spec fn covers(
    assets: Seq<(Address, BalanceRecord)>,
    asset: Address,
    balance: i128,
) -> bool {
    exists|k: int|
        0 <= k < assets.len() && (#[trigger] assets[k]).0 == asset && 0 <= balance
            <= assets[k].1.deposit
}

/// `balances` names the assets of `assets` and no others, each with a balance
/// within the deposit of the same asset.
pub open spec fn fits(
    assets: Seq<(Address, BalanceRecord)>,
    balances: Seq<(Address, i128)>,
) -> bool {
    &&& balances.len() == assets.len()
    &&& forall|i: int|
        0 <= i < balances.len() ==> {
            &&& (#[trigger] balances[i]).0 == assets[i].0
            &&& 0 <= balances[i].1
            &&& balances[i].1 <= assets[i].1.deposit
        }
}

/// Position `i` is the first of `balances` that names an unknown asset or
/// oversteps the deposit of its asset.
pub open spec fn first_fault(
    assets: Seq<(Address, BalanceRecord)>,
    balances: Seq<(Address, i128)>,
    i: int,
) -> bool {
    &&& 0 <= i < balances.len()
    &&& !covers(assets, balances[i].0, balances[i].1)
    &&& forall|j: int| 0 <= j < i ==> covers(assets, (#[trigger] balances[j]).0, balances[j].1)
}

proof fn lemma_known_assets(assets: Seq<(Address, BalanceRecord)>, asset: Address, balance: i128)
    requires
        sorted_map::sorted(assets),
    ensures
        sorted_map::lookup(assets, asset) is Some <==> holds(assets, asset),
        sorted_map::lookup(assets, asset) is Some ==> (covers(assets, asset, balance) <==> 0
            <= balance <= sorted_map::lookup(assets, asset)->0.deposit),
        covers(assets, asset, balance) ==> holds(assets, asset),
{
    assert forall|k: int| 0 <= k < assets.len() && (#[trigger] assets[k]).0
        == asset implies sorted_map::lookup(assets, asset) == Some(assets[k].1) by {
        sorted_map::lemma_lookup_at(assets, k);
    }
    if sorted_map::has_key(assets, asset) {
        let k = choose|k: int| sorted_map::entry_at(assets, asset, k);
        assert(assets[k].0 == asset);
    }
}

proof fn lemma_first_fault(
    assets: Seq<(Address, BalanceRecord)>,
    balances: Seq<(Address, i128)>,
    from: int,
    i: int,
)
    requires
        sorted_map::sorted(assets),
        0 <= from <= i,
        first_fault(assets, balances, i),
    ensures
        multi_asset::balance_fault(assets, balances, from) == Some(
            if holds(assets, balances[i].0) {
                Error::ExceedsPayment
            } else {
                Error::UnsupportedAsset
            },
        ),
    decreases i - from,
{
    lemma_known_assets(assets, balances[from].0, balances[from].1);
    if from < i {
        assert(covers(assets, balances[from].0, balances[from].1));
        lemma_first_fault(assets, balances, from + 1, i);
    }
}

proof fn lemma_fits(assets: Seq<(Address, BalanceRecord)>, balances: Seq<(Address, i128)>)
    ensures
        fits(assets, balances) <==> {
            &&& sorted_map::keys(balances) == sorted_map::keys(assets)
            &&& forall|i: int|
                0 <= i < balances.len() ==> 0 <= (#[trigger] balances[i]).1
                    <= assets[i].1.deposit
        },
{
    assert(balances.len() == sorted_map::keys(balances).len());
    assert(assets.len() == sorted_map::keys(assets).len());
    if sorted_map::keys(balances) == sorted_map::keys(assets) {
        assert forall|i: int| 0 <= i < balances.len() implies (#[trigger] balances[i]).0
            == assets[i].0 by {
            assert(sorted_map::keys(balances)[i] == balances[i].0);
            assert(sorted_map::keys(assets)[i] == assets[i].0);
        }
    }
    if fits(assets, balances) {
        assert forall|i: int| 0 <= i < balances.len() implies sorted_map::keys(balances)[i]
            == sorted_map::keys(assets)[i] by {
            assert(balances[i].0 == assets[i].0);
        }
        assert(sorted_map::keys(balances) =~= sorted_map::keys(assets));
    }
}

/// What becomes of a correctly signed state: a nonce that is not newer is told
/// first, where a newer one is asked for, then a different number of assets,
/// then the first entry at fault; a state without any of these is accepted.
pub proof fn law_state_answer(channel: ChannelView, state: StateView, require_newer: bool)
    requires
        sorted_map::sorted(channel.assets),
        sorted_map::sorted(state.balances),
    ensures
        ({
            let answer = multi_asset::apply_result(channel, state, require_newer);
            let stale = require_newer && state.nonce <= channel.nonce;
            &&& stale ==> answer == Err::<ChannelView, Error>(Error::StaleState)
            &&& !stale && state.balances.len() != channel.assets.len() ==> answer == Err::<
                ChannelView,
                Error,
            >(Error::UnsupportedAsset)
            &&& !stale && state.balances.len() == channel.assets.len() ==> forall|i: int| #[trigger]
                first_fault(channel.assets, state.balances, i) ==> answer == Err::<
                    ChannelView,
                    Error,
                >(
                    if holds(channel.assets, state.balances[i].0) {
                        Error::ExceedsPayment
                    } else {
                        Error::UnsupportedAsset
                    },
                )
            &&& answer is Ok <==> !stale && fits(channel.assets, state.balances)
        }),
{
    channel_laws::law_state_accepted_iff(channel, state, require_newer);
    lemma_fits(channel.assets, state.balances);
    assert forall|i: int| #[trigger]
        first_fault(
            channel.assets,
            state.balances,
            i,
        ) implies multi_asset::balance_fault(channel.assets, state.balances, 0) == Some(
        if holds(channel.assets, state.balances[i].0) {
            Error::ExceedsPayment
        } else {
            Error::UnsupportedAsset
        },
    ) by {
        lemma_first_fault(channel.assets, state.balances, 0, i);
    }
}

/// An accepted state replaces the nonce and every balance, and nothing else.
pub proof fn law_state_effect(channel: ChannelView, state: StateView, require_newer: bool)
    requires
        multi_asset::apply_result(channel, state, require_newer) is Ok,
    ensures
        ({
            let next = multi_asset::apply_result(channel, state, require_newer)->Ok_0;
            &&& next == multi_asset::applied(channel, state)
            &&& next.sender == channel.sender
            &&& next.receiver == channel.receiver
            &&& next.sender_pubkey == channel.sender_pubkey
            &&& next.nonce == state.nonce
            &&& next.phase == channel.phase
            &&& next.opened_at == channel.opened_at
            &&& next.closed_at == channel.closed_at
            &&& next.challenge_period == channel.challenge_period
            &&& next.assets.len() == channel.assets.len()
            &&& forall|i: int|
                0 <= i < channel.assets.len() ==> {
                    &&& (#[trigger] next.assets[i]).0 == channel.assets[i].0
                    &&& next.assets[i].1.deposit == channel.assets[i].1.deposit
                    &&& next.assets[i].1.receiver_balance == state.balances[i].1
                }
        }),
{
}

/// `update` looks at the signature unless there is no such channel, the channel
/// is settled, or it is closed and more than its challenge period has gone by
/// since it was closed or last challenged. An open channel is never refused
/// before that, at whatever ledger.
pub proof fn law_update_refused_unseen(env: ChannelEnvView, channel_id: u64)
    ensures
        ({
            let refusal = multi_asset::update_precluded(env, channel_id);
            let known = env.channels.contains_key(channel_id);
            let channel = env.channels[channel_id];
            &&& !known ==> refusal == Some(Error::ChannelNotFound)
            &&& known && channel.phase == ChannelPhase::Open ==> refusal is None
            &&& known && channel.phase == ChannelPhase::Closed && env.sequence <= channel.closed_at
                + channel.challenge_period ==> refusal is None
            &&& known && channel.phase == ChannelPhase::Closed && env.sequence > channel.closed_at
                + channel.challenge_period ==> refusal == Some(Error::ChallengeExpired)
            &&& known && channel.phase == ChannelPhase::Finalized ==> refusal == Some(
                Error::ChannelNotOpen,
            )
        }),
{
}

/// `update` with a correctly signed state is accepted exactly when the channel
/// is open, or closed with its challenge window running, the nonce is newer, and
/// the state names exactly the channel's assets with balances within the
/// deposits.
pub proof fn law_update_accepted_iff(env: ChannelEnvView, channel_id: u64, state: StateView)
    requires
        env.channels.contains_key(channel_id),
        sorted_map::sorted(env.channels[channel_id].assets),
        sorted_map::sorted(state.balances),
    ensures
        ({
            let channel = env.channels[channel_id];
            let taken = state.nonce > channel.nonce && fits(channel.assets, state.balances);
            let ok = multi_asset::update_result(env, channel_id, state) == Ok::<(), Error>(());
            &&& channel.phase == ChannelPhase::Open ==> (ok <==> taken)
            &&& channel.phase == ChannelPhase::Closed ==> (ok <==> taken && env.sequence
                <= channel.closed_at + channel.challenge_period)
            &&& channel.phase == ChannelPhase::Finalized ==> !ok
        }),
{
    law_state_answer(env.channels[channel_id], state, true);
    law_update_refused_unseen(env, channel_id);
}

/// Which refusal `update` answers with.
pub proof fn law_update_refusals(env: ChannelEnvView, channel_id: u64, state: StateView, i: int)
    requires
        env.channels.contains_key(channel_id) ==> sorted_map::sorted(
            env.channels[channel_id].assets,
        ),
        sorted_map::sorted(state.balances),
    ensures
        ({
            let channel = env.channels[channel_id];
            let answer = multi_asset::update_result(env, channel_id, state);
            let known = env.channels.contains_key(channel_id);
            let takes_states = known && (channel.phase == ChannelPhase::Open || channel.phase
                == ChannelPhase::Closed && env.sequence <= channel.closed_at
                + channel.challenge_period);
            &&& !known ==> answer == Err::<(), Error>(Error::ChannelNotFound)
            &&& known && channel.phase == ChannelPhase::Finalized ==> answer == Err::<(), Error>(
                Error::ChannelNotOpen,
            )
            &&& known && channel.phase == ChannelPhase::Closed && !takes_states ==> answer == Err::<
                (),
                Error,
            >(Error::ChallengeExpired)
            &&& takes_states && state.nonce <= channel.nonce ==> answer == Err::<(), Error>(
                Error::StaleState,
            )
            &&& takes_states && state.nonce > channel.nonce && state.balances.len()
                != channel.assets.len() ==> answer == Err::<(), Error>(Error::UnsupportedAsset)
            &&& takes_states && state.nonce > channel.nonce && state.balances.len()
                == channel.assets.len() && first_fault(channel.assets, state.balances, i) ==> answer
                == Err::<(), Error>(
                if holds(channel.assets, state.balances[i].0) {
                    Error::ExceedsPayment
                } else {
                    Error::UnsupportedAsset
                },
            )
        }),
{
    law_update_refused_unseen(env, channel_id);
    if env.channels.contains_key(channel_id) {
        law_state_answer(env.channels[channel_id], state, true);
    }
}

/// `close` looks at the signature unless there is no such channel, the channel
/// is not open, it has outlived the maximum lifetime, or the nonce goes back.
pub proof fn law_close_refused_unseen(env: ChannelEnvView, channel_id: u64, state: StateView)
    ensures
        ({
            let refusal = multi_asset::close_precluded(env, channel_id, state);
            let known = env.channels.contains_key(channel_id);
            let channel = env.channels[channel_id];
            let last = channel.opened_at + match env.max_channel_lifetime {
                Some(lifetime) => lifetime,
                None => env.default_max_channel_lifetime,
            };
            let open = known && channel.phase == ChannelPhase::Open;
            &&& !known ==> refusal == Some(Error::ChannelNotFound)
            &&& known && !open ==> refusal == Some(Error::ChannelNotOpen)
            &&& open && env.sequence > last ==> refusal == Some(Error::ChannelExpired)
            &&& open && env.sequence <= last && state.nonce < channel.nonce ==> refusal == Some(
                Error::StaleState,
            )
            &&& open && env.sequence <= last && state.nonce >= channel.nonce ==> refusal is None
        }),
{
}

/// `close` with a correctly signed state is accepted exactly when the channel
/// is open and within its maximum lifetime, the nonce does not go back, however
/// far it goes ahead, and the state names exactly the channel's assets with
/// balances within the deposits.
pub proof fn law_close_accepted_iff(env: ChannelEnvView, channel_id: u64, state: StateView)
    requires
        env.channels.contains_key(channel_id),
        sorted_map::sorted(env.channels[channel_id].assets),
        sorted_map::sorted(state.balances),
    ensures
        ({
            let channel = env.channels[channel_id];
            let last = channel.opened_at + match env.max_channel_lifetime {
                Some(lifetime) => lifetime,
                None => env.default_max_channel_lifetime,
            };
            multi_asset::close_result(env, channel_id, state) == Ok::<(), Error>(()) <==> {
                &&& channel.phase == ChannelPhase::Open
                &&& env.sequence <= last
                &&& state.nonce >= channel.nonce
                &&& fits(channel.assets, state.balances)
            }
        }),
{
    law_state_answer(env.channels[channel_id], state, false);
    law_close_refused_unseen(env, channel_id, state);
}

/// Which refusal `close` answers with.
pub proof fn law_close_refusals(env: ChannelEnvView, channel_id: u64, state: StateView, i: int)
    requires
        env.channels.contains_key(channel_id) ==> sorted_map::sorted(
            env.channels[channel_id].assets,
        ),
        sorted_map::sorted(state.balances),
    ensures
        ({
            let channel = env.channels[channel_id];
            let answer = multi_asset::close_result(env, channel_id, state);
            let known = env.channels.contains_key(channel_id);
            let open = known && channel.phase == ChannelPhase::Open;
            let last = channel.opened_at + match env.max_channel_lifetime {
                Some(lifetime) => lifetime,
                None => env.default_max_channel_lifetime,
            };
            let takes_states = open && env.sequence <= last && state.nonce >= channel.nonce;
            &&& !known ==> answer == Err::<(), Error>(Error::ChannelNotFound)
            &&& known && !open ==> answer == Err::<(), Error>(Error::ChannelNotOpen)
            &&& open && env.sequence > last ==> answer == Err::<(), Error>(Error::ChannelExpired)
            &&& open && env.sequence <= last && state.nonce < channel.nonce ==> answer == Err::<
                (),
                Error,
            >(Error::StaleState)
            &&& takes_states && state.balances.len() != channel.assets.len() ==> answer == Err::<
                (),
                Error,
            >(Error::UnsupportedAsset)
            &&& takes_states && state.balances.len() == channel.assets.len() && first_fault(
                channel.assets,
                state.balances,
                i,
            ) ==> answer == Err::<(), Error>(
                if holds(channel.assets, state.balances[i].0) {
                    Error::ExceedsPayment
                } else {
                    Error::UnsupportedAsset
                },
            )
        }),
{
    law_close_refused_unseen(env, channel_id, state);
    if env.channels.contains_key(channel_id) {
        law_state_answer(env.channels[channel_id], state, false);
    }
}

/// `after` is `env` with `channel` under `channel_id`, and with effects that
/// write it, extend its lifetime and announce `state`.
pub open spec fn announces(
    env: ChannelEnvView,
    after: ChannelEnvView,
    channel_id: u64,
    channel: ChannelView,
    state: StateView,
) -> bool {
    &&& after.contract == env.contract
    &&& after.sequence == env.sequence
    &&& after.auths == env.auths
    &&& after.token == env.token
    &&& after.channel_count == env.channel_count
    &&& after.max_channel_lifetime == env.max_channel_lifetime
    &&& after.default_max_channel_lifetime == env.default_max_channel_lifetime
    &&& after.channels == env.channels.insert(channel_id, channel)
    &&& after.effects == env.effects.push(
        EffectView::Write(DataKey::MultiAssetChannel(channel_id)),
    ).push(EffectView::ExtendTtl(DataKey::MultiAssetChannel(channel_id))).push(
        EffectView::Updated {
            channel_id,
            nonce: state.nonce,
            balances: state.balances,
            phase: channel.phase,
        },
    )
}

/// What a successful `update` leaves: the state's nonce and balances in the
/// channel, a new start of the window where the channel is closed, and the
/// effects that write and announce it.
pub proof fn law_update_effect(env: ChannelEnvView, channel_id: u64, state: StateView)
    requires
        multi_asset::update_result(env, channel_id, state) is Ok,
    ensures
        ({
            let after = multi_asset::updated(env, channel_id, state);
            let channel = env.channels[channel_id];
            let next = after.channels[channel_id];
            &&& announces(env, after, channel_id, next, state)
            &&& next.closed_at == if channel.phase == ChannelPhase::Closed {
                env.sequence
            } else {
                channel.closed_at
            }
            &&& next.phase == channel.phase
            &&& next.nonce == state.nonce
            &&& next.sender == channel.sender
            &&& next.receiver == channel.receiver
            &&& next.sender_pubkey == channel.sender_pubkey
            &&& next.opened_at == channel.opened_at
            &&& next.challenge_period == channel.challenge_period
            &&& next.assets.len() == channel.assets.len()
            &&& forall|i: int|
                0 <= i < channel.assets.len() ==> {
                    &&& (#[trigger] next.assets[i]).0 == channel.assets[i].0
                    &&& next.assets[i].1.deposit == channel.assets[i].1.deposit
                    &&& next.assets[i].1.receiver_balance == state.balances[i].1
                }
        }),
{
    let after = multi_asset::updated(env, channel_id, state);
    law_state_effect(env.channels[channel_id], state, true);
    lemma_announced(env, channel_id, after.channels[channel_id], state);
}

/// What a successful `close` leaves: the state's nonce and balances in the
/// channel, which is closed as of the current ledger, and the effects that write
/// and announce it.
pub proof fn law_close_effect(env: ChannelEnvView, channel_id: u64, state: StateView)
    requires
        multi_asset::close_result(env, channel_id, state) is Ok,
    ensures
        ({
            let after = multi_asset::closed(env, channel_id, state);
            let channel = env.channels[channel_id];
            let next = after.channels[channel_id];
            &&& announces(env, after, channel_id, next, state)
            &&& next.phase == ChannelPhase::Closed
            &&& next.closed_at == env.sequence
            &&& next.nonce == state.nonce
            &&& next.sender == channel.sender
            &&& next.receiver == channel.receiver
            &&& next.sender_pubkey == channel.sender_pubkey
            &&& next.opened_at == channel.opened_at
            &&& next.challenge_period == channel.challenge_period
            &&& next.assets.len() == channel.assets.len()
            &&& forall|i: int|
                0 <= i < channel.assets.len() ==> {
                    &&& (#[trigger] next.assets[i]).0 == channel.assets[i].0
                    &&& next.assets[i].1.deposit == channel.assets[i].1.deposit
                    &&& next.assets[i].1.receiver_balance == state.balances[i].1
                }
        }),
{
    let after = multi_asset::closed(env, channel_id, state);
    law_state_effect(env.channels[channel_id], state, false);
    lemma_announced(env, channel_id, after.channels[channel_id], state);
}

proof fn lemma_announced(
    env: ChannelEnvView,
    channel_id: u64,
    channel: ChannelView,
    state: StateView,
)
    ensures
        announces(
            env,
            multi_asset::announced(env, channel_id, channel, state),
            channel_id,
            channel,
            state,
        ),
{
    let after = multi_asset::announced(env, channel_id, channel, state);
    assert(after.effects =~= env.effects.push(
        EffectView::Write(DataKey::MultiAssetChannel(channel_id)),
    ).push(EffectView::ExtendTtl(DataKey::MultiAssetChannel(channel_id))).push(
        EffectView::Updated {
            channel_id,
            nonce: state.nonce,
            balances: state.balances,
            phase: channel.phase,
        },
    ));
}

/// Storing a channel puts it under its id, writes it and extends the lifetime
/// of its entry, and changes nothing else.
pub proof fn law_stored(env: ChannelEnvView, channel_id: u64, channel: ChannelView)
    ensures
        ({
            let after = multi_asset::stored(env, channel_id, channel);
            &&& after.channels == env.channels.insert(channel_id, channel)
            &&& after.effects == env.effects.push(
                EffectView::Write(DataKey::MultiAssetChannel(channel_id)),
            ).push(EffectView::ExtendTtl(DataKey::MultiAssetChannel(channel_id)))
            &&& after.contract == env.contract
            &&& after.sequence == env.sequence
            &&& after.auths == env.auths
            &&& after.token == env.token
            &&& after.channel_count == env.channel_count
            &&& after.max_channel_lifetime == env.max_channel_lifetime
            &&& after.default_max_channel_lifetime == env.default_max_channel_lifetime
        }),
{
    assert(multi_asset::stored(env, channel_id, channel).effects =~= env.effects.push(
        EffectView::Write(DataKey::MultiAssetChannel(channel_id)),
    ).push(EffectView::ExtendTtl(DataKey::MultiAssetChannel(channel_id))));
}

/// The challenge window that opened at `closed_at` runs through the ledger
/// `closed_at + challenge_period` and no longer.
pub proof fn law_window(now: u32, closed_at: u32, challenge_period: u32)
    ensures
        dispute::window_runs(now, closed_at, challenge_period) <==> now <= closed_at
            + challenge_period,
{
}

/// A channel has outlived the maximum lifetime exactly at the ledgers after
/// `opened_at` plus the configured lifetime or, where none is configured, the
/// default one.
pub proof fn law_lifetime(env: ChannelEnvView, channel: ChannelView)
    ensures
        env.max_channel_lifetime matches Some(lifetime) ==> {
            &&& multi_asset::lifetime(env) == lifetime
            &&& multi_asset::expired(env, channel) <==> env.sequence > channel.opened_at + lifetime
        },
        env.max_channel_lifetime is None ==> {
            &&& multi_asset::lifetime(env) == env.default_max_channel_lifetime
            &&& multi_asset::expired(env, channel) <==> env.sequence > channel.opened_at
                + env.default_max_channel_lifetime
        },
{
}

/// An open channel can be settled exactly at the ledgers after `opened_at` plus
/// the configured maximum lifetime or, where none is configured, the default
/// one. Up to there the challenge is active.
pub proof fn law_open_channel_settles_iff(env: ChannelEnvView, channel_id: u64)
    requires
        env.channels.contains_key(channel_id),
        env.channels[channel_id].phase == ChannelPhase::Open,
        forall|i: int|
            0 <= i < env.channels[channel_id].assets.len() ==> i128::MIN <= (
            #[trigger] env.channels[channel_id].assets[i]).1.deposit
                - env.channels[channel_id].assets[i].1.receiver_balance <= i128::MAX,
    ensures
        ({
            let channel = env.channels[channel_id];
            let last = channel.opened_at + match env.max_channel_lifetime {
                Some(lifetime) => lifetime,
                None => env.default_max_channel_lifetime,
            };
            multi_asset::settle_result(env, channel_id) == if env.sequence > last {
                Ok::<(), Error>(())
            } else {
                Err(Error::ChallengeActive)
            }
        }),
{
}

/// A closed channel can be settled exactly once more than its challenge period
/// has gone by since it was closed or last challenged. Up to there the challenge
/// is active.
pub proof fn law_closed_channel_settles_iff(env: ChannelEnvView, channel_id: u64)
    requires
        env.channels.contains_key(channel_id),
        env.channels[channel_id].phase == ChannelPhase::Closed,
        forall|i: int|
            0 <= i < env.channels[channel_id].assets.len() ==> i128::MIN <= (
            #[trigger] env.channels[channel_id].assets[i]).1.deposit
                - env.channels[channel_id].assets[i].1.receiver_balance <= i128::MAX,
    ensures
        ({
            let channel = env.channels[channel_id];
            multi_asset::settle_result(env, channel_id) == if env.sequence > channel.closed_at
                + channel.challenge_period {
                Ok::<(), Error>(())
            } else {
                Err(Error::ChallengeActive)
            }
        }),
{
}

/// Which refusal `settle` answers with, whatever the channel holds.
pub proof fn law_settle_refusals(env: ChannelEnvView, channel_id: u64, i: int)
    ensures
        ({
            let answer = multi_asset::settle_result(env, channel_id);
            let known = env.channels.contains_key(channel_id);
            let channel = env.channels[channel_id];
            let last = match channel.phase {
                ChannelPhase::Open => channel.opened_at + match env.max_channel_lifetime {
                    Some(lifetime) => lifetime,
                    None => env.default_max_channel_lifetime,
                },
                _ => channel.closed_at + channel.challenge_period,
            };
            let final_already = channel.phase == ChannelPhase::Finalized;
            let record = channel.assets[i].1;
            let left = record.deposit - record.receiver_balance;
            &&& !known ==> answer == Err::<(), Error>(Error::ChannelNotFound)
            &&& known && final_already ==> answer == Err::<(), Error>(Error::ChannelAlreadyClosed)
            &&& known && !final_already && env.sequence <= last ==> answer == Err::<(), Error>(
                Error::ChallengeActive,
            )
            &&& known && !final_already && env.sequence > last && 0 <= i < channel.assets.len() && (
            left < i128::MIN || left > i128::MAX) ==> answer == Err::<(), Error>(
                Error::MathOverflow,
            )
        }),
{
}

/// The transfer of one amount out of the contract, where there is anything to
/// transfer.
pub open spec fn payment(contract: Address, token: Address, to: Address, amount: int) -> Seq<
    EffectView,
> {
    if amount > 0 {
        Seq::empty().push(
            EffectView::Transfer(Transfer { token, from: contract, to, amount: amount as i128 }),
        )
    } else {
        Seq::empty()
    }
}

/// Settlement pays asset by asset, in order: the receiver their balance, then
/// the sender the rest of the deposit, each where it is positive.
pub proof fn law_payouts(contract: Address, channel: ChannelView, n: int)
    requires
        0 <= n < channel.assets.len(),
    ensures
        multi_asset::payouts(contract, channel, 0) == Seq::<EffectView>::empty(),
        ({
            let (token, record) = channel.assets[n];
            multi_asset::payouts(contract, channel, n + 1) == multi_asset::payouts(
                contract,
                channel,
                n,
            ) + payment(contract, token, channel.receiver, record.receiver_balance as int)
                + payment(
                contract,
                token,
                channel.sender,
                record.deposit - record.receiver_balance,
            )
        }),
{
    let (token, record) = channel.assets[n];
    assert(multi_asset::payouts(contract, channel, n + 1) =~= multi_asset::payouts(
        contract,
        channel,
        n,
    ) + payment(contract, token, channel.receiver, record.receiver_balance as int) + payment(
        contract,
        token,
        channel.sender,
        record.deposit - record.receiver_balance,
    ));
}

/// What a successful `settle` leaves: the channel as it was but final, and
/// effects that write it, extend its lifetime, pay every asset and announce
/// what was paid, in this order.
pub proof fn law_settle_effect(env: ChannelEnvView, channel_id: u64)
    requires
        multi_asset::settle_result(env, channel_id) is Ok,
    ensures
        ({
            let after = multi_asset::settled(env, channel_id);
            let channel = env.channels[channel_id];
            let payouts = multi_asset::receiver_shares(channel.assets);
            let refunds = multi_asset::sender_shares(channel.assets);
            &&& after.contract == env.contract
            &&& after.sequence == env.sequence
            &&& after.auths == env.auths
            &&& after.token == env.token
            &&& after.channel_count == env.channel_count
            &&& after.max_channel_lifetime == env.max_channel_lifetime
            &&& after.default_max_channel_lifetime == env.default_max_channel_lifetime
            &&& after.channels == env.channels.insert(
                channel_id,
                ChannelView { phase: ChannelPhase::Finalized, ..channel },
            )
            &&& after.effects == (env.effects.push(
                EffectView::Write(DataKey::MultiAssetChannel(channel_id)),
            ).push(EffectView::ExtendTtl(DataKey::MultiAssetChannel(channel_id)))
                + multi_asset::payouts(env.contract, channel, channel.assets.len() as int)).push(
                EffectView::Settled {
                    channel_id,
                    receiver_payouts: payouts,
                    sender_refunds: refunds,
                },
            )
            &&& payouts.len() == channel.assets.len()
            &&& refunds.len() == channel.assets.len()
            &&& forall|i: int|
                0 <= i < channel.assets.len() ==> {
                    &&& (#[trigger] payouts[i]).0 == channel.assets[i].0
                    &&& payouts[i].1 == channel.assets[i].1.receiver_balance
                }
            &&& forall|i: int|
                0 <= i < channel.assets.len() ==> {
                    &&& (#[trigger] refunds[i]).0 == channel.assets[i].0
                    &&& refunds[i].1 == channel.assets[i].1.deposit
                        - channel.assets[i].1.receiver_balance
                }
        }),
{
    let after = multi_asset::settled(env, channel_id);
    let channel = env.channels[channel_id];
    let payouts = multi_asset::receiver_shares(channel.assets);
    let refunds = multi_asset::sender_shares(channel.assets);
    assert(after.effects =~= (env.effects.push(
        EffectView::Write(DataKey::MultiAssetChannel(channel_id)),
    ).push(EffectView::ExtendTtl(DataKey::MultiAssetChannel(channel_id))) + multi_asset::payouts(
        env.contract,
        channel,
        channel.assets.len() as int,
    )).push(
        EffectView::Settled { channel_id, receiver_payouts: payouts, sender_refunds: refunds },
    ));
    assert forall|i: int| 0 <= i < channel.assets.len() implies (#[trigger] refunds[i]).0
        == channel.assets[i].0 && refunds[i].1 == channel.assets[i].1.deposit
        - channel.assets[i].1.receiver_balance by {
        assert(i128::MIN <= multi_asset::refund_of(channel.assets[i].1) <= i128::MAX);
    }
}

/// `open` answers with the number of channels opened before plus one exactly
/// when the contract has a token, there are one to ten deposits, and every one
/// is positive; each refusal comes on what it says, in this order.
pub proof fn law_open_answer(env: ChannelEnvView, deposits: Seq<(Address, i128)>)
    requires
        env.channel_count != Some(u64::MAX),
    ensures
        ({
            let answer = multi_asset::open_result(env, deposits);
            let positive = forall|i: int|
                0 <= i < deposits.len() ==> (#[trigger] deposits[i]).1 > 0;
            let before = match env.channel_count {
                Some(count) => count as int,
                None => 0,
            };
            &&& env.token is None ==> answer == Err::<u64, Error>(Error::NotInitialized)
            &&& env.token is Some && deposits.len() == 0 ==> answer == Err::<u64, Error>(
                Error::InvalidAmount,
            )
            &&& env.token is Some && deposits.len() > 10 ==> answer == Err::<u64, Error>(
                Error::BatchTooLarge,
            )
            &&& env.token is Some && 1 <= deposits.len() <= 10 && !positive ==> answer == Err::<
                u64,
                Error,
            >(Error::InvalidAmount)
            &&& env.token is Some && 1 <= deposits.len() <= 10 && positive ==> answer is Ok
                && answer->Ok_0 == before + 1
        }),
{
}

/// `open` asks for the sender's authorization unless the contract has no token
/// or the number of deposits is out of bounds.
pub proof fn law_open_refused_unasked(
    env: ChannelEnvView,
    sender: Address,
    deposits: Seq<(Address, i128)>,
)
    ensures
        ({
            let refusal = multi_asset::open_precluded(env, deposits);
            &&& refusal is None <==> env.token is Some && 1 <= deposits.len() <= 10
            &&& env.token is None ==> refusal == Some(Error::NotInitialized)
            &&& env.token is Some && deposits.len() == 0 ==> refusal == Some(Error::InvalidAmount)
            &&& env.token is Some && deposits.len() > 10 ==> refusal == Some(Error::BatchTooLarge)
        }),
        multi_asset::open_admitted(env, sender, deposits) <==> {
            let asked = env.token is Some && 1 <= deposits.len() <= 10;
            let positive = forall|i: int|
                0 <= i < deposits.len() ==> (#[trigger] deposits[i]).1 > 0;
            &&& asked ==> env.auths.contains(sender)
            &&& asked && positive ==> env.channel_count != Some(u64::MAX)
        },
{
}

/// What a successful `open` stores: an open channel with nonce 0 and no closing
/// ledger, opened at the current ledger between the given parties, with exactly
/// the given deposits and nothing due to the receiver, whatever was opened
/// before.
pub proof fn law_open_stores(
    env: ChannelEnvView,
    sender: Address,
    receiver: Address,
    sender_pubkey: Seq<u8>,
    deposits: Seq<(Address, i128)>,
    challenge_period: u32,
)
    requires
        multi_asset::open_result(env, deposits) is Ok,
    ensures
        ({
            let after = multi_asset::opened(
                env,
                sender,
                receiver,
                sender_pubkey,
                deposits,
                challenge_period,
            );
            let id = multi_asset::open_result(env, deposits)->Ok_0;
            let channel = after.channels[id];
            &&& after.channels == env.channels.insert(id, channel)
            &&& after.channel_count == Some(id)
            &&& after.contract == env.contract
            &&& after.sequence == env.sequence
            &&& after.auths == env.auths
            &&& after.token == env.token
            &&& after.max_channel_lifetime == env.max_channel_lifetime
            &&& after.default_max_channel_lifetime == env.default_max_channel_lifetime
            &&& channel.sender == sender
            &&& channel.receiver == receiver
            &&& channel.sender_pubkey == sender_pubkey
            &&& channel.nonce == 0
            &&& channel.phase == ChannelPhase::Open
            &&& channel.opened_at == env.sequence
            &&& channel.closed_at == 0
            &&& channel.challenge_period == challenge_period
            &&& channel.assets.len() == deposits.len()
            &&& forall|i: int|
                0 <= i < deposits.len() ==> {
                    &&& (#[trigger] channel.assets[i]).0 == deposits[i].0
                    &&& channel.assets[i].1.deposit == deposits[i].1
                    &&& channel.assets[i].1.receiver_balance == 0
                }
        }),
{
}

/// What a successful `open` asks of the ledger, in order: the transfer of every
/// deposit from the sender to the contract, the writes, and the announcement.
pub proof fn law_open_effects(
    env: ChannelEnvView,
    sender: Address,
    receiver: Address,
    sender_pubkey: Seq<u8>,
    deposits: Seq<(Address, i128)>,
    challenge_period: u32,
)
    requires
        multi_asset::open_result(env, deposits) is Ok,
    ensures
        ({
            let id = multi_asset::open_result(env, deposits)->Ok_0;
            let effects = multi_asset::opened(
                env,
                sender,
                receiver,
                sender_pubkey,
                deposits,
                challenge_period,
            ).effects;
            let n = env.effects.len() as int;
            let m = n + deposits.len();
            &&& effects.len() == m + 5
            &&& forall|i: int| 0 <= i < n ==> #[trigger] effects[i] == env.effects[i]
            &&& forall|i: int|
                0 <= i < deposits.len() ==> effects[n + i] == EffectView::Transfer(
                    Transfer {
                        token: (#[trigger] deposits[i]).0,
                        from: sender,
                        to: env.contract,
                        amount: deposits[i].1,
                    },
                )
            &&& effects[m] == EffectView::Write(DataKey::ChannelCount)
            &&& effects[m + 1] == EffectView::ExtendInstanceTtl
            &&& effects[m + 2] == EffectView::Write(DataKey::MultiAssetChannel(id))
            &&& effects[m + 3] == EffectView::ExtendTtl(DataKey::MultiAssetChannel(id))
            &&& effects[m + 4] == (EffectView::Opened {
                channel_id: id,
                sender,
                receiver,
                deposits,
                challenge_period,
            })
        }),
{
}

/// A new channel takes its first state, whatever was opened before: any nonce
/// from 1 on, with exactly its assets and balances within the deposits, at
/// whatever ledger.
pub proof fn law_first_state_accepted(
    env: ChannelEnvView,
    sender: Address,
    receiver: Address,
    sender_pubkey: Seq<u8>,
    deposits: Seq<(Address, i128)>,
    challenge_period: u32,
    later: ChannelEnvView,
    state: StateView,
)
    requires
        sorted_map::sorted(deposits),
        sorted_map::sorted(state.balances),
        multi_asset::open_result(env, deposits) is Ok,
        later.channels == multi_asset::opened(
            env,
            sender,
            receiver,
            sender_pubkey,
            deposits,
            challenge_period,
        ).channels,
        state.nonce >= 1,
        state.balances.len() == deposits.len(),
        forall|i: int|
            0 <= i < deposits.len() ==> {
                &&& (#[trigger] state.balances[i]).0 == deposits[i].0
                &&& 0 <= state.balances[i].1 <= deposits[i].1
            },
    ensures
        multi_asset::update_result(
            later,
            multi_asset::open_result(env, deposits)->Ok_0,
            state,
        ) == Ok::<(), Error>(()),
{
    let id = multi_asset::open_result(env, deposits)->Ok_0;
    law_open_stores(env, sender, receiver, sender_pubkey, deposits, challenge_period);
    let channel = later.channels[id];
    assert forall|i: int, j: int|
        #![trigger channel.assets[i], channel.assets[j]]
        0 <= i < j < channel.assets.len() implies sorted_map::Key::before(
        channel.assets[i].0,
        channel.assets[j].0,
    ) by {
        assert(sorted_map::Key::before(deposits[i].0, deposits[j].0));
    }
    assert(fits(channel.assets, state.balances)) by {
        assert forall|i: int| 0 <= i < state.balances.len() implies (#[trigger] state.balances[i]).0
            == channel.assets[i].0 && 0 <= state.balances[i].1 && state.balances[i].1
            <= channel.assets[i].1.deposit by {
            assert(channel.assets[i].0 == deposits[i].0);
        }
    }
    law_update_accepted_iff(later, id, state);
}

/// A signature counts for a state exactly when it is one of the state's payload
/// under the channel's own key.
pub proof fn law_signed(
    contract: Address,
    channel_id: u64,
    channel: ChannelView,
    state: StateView,
    signature: Seq<u8>,
)
    ensures
        multi_asset::signed(contract, channel_id, channel, state, signature)
            == crate::crypto::ed25519_valid(
            channel.sender_pubkey,
            multi_asset::payload(contract, channel_id, state),
            signature,
        ),
{
}

/// The views of a channel and of a state tell every field.
pub proof fn law_channel_told(channel: MultiAssetChannel, state: MultiAssetState)
    ensures
        channel@.sender == channel.sender,
        channel@.receiver == channel.receiver,
        channel@.sender_pubkey == channel.sender_pubkey@,
        channel@.assets == channel.assets@,
        channel@.nonce == channel.nonce,
        channel@.phase == channel.phase,
        channel@.opened_at == channel.opened_at,
        channel@.closed_at == channel.closed_at,
        channel@.challenge_period == channel.challenge_period,
        state@.nonce == state.nonce,
        state@.balances == state.balances@,
{
}

/// The view of a call's surroundings tells every field.
pub proof fn law_env_told(env: ChannelEnv, i: int)
    requires
        env.wf(),
    ensures
        env@.contract == env.contract,
        env@.sequence == env.sequence,
        env@.auths == env.auths@,
        env@.token == env.token,
        env@.channel_count == env.channel_count,
        env@.max_channel_lifetime == env.max_channel_lifetime,
        env@.default_max_channel_lifetime == env.default_max_channel_lifetime,
        0 <= i < env.channels@.len() ==> {
            let (id, channel) = env.channels@[i];
            env@.channels.contains_key(id) && env@.channels[id] == channel@
        },
        forall|id: u64| #[trigger]
            env@.channels.contains_key(id) ==> exists|k: int|
                0 <= k < env.channels@.len() && (#[trigger] env.channels@[k]).0 == id,
        env@.effects.len() == env.effects@.len(),
        0 <= i < env.effects@.len() ==> env@.effects[i] == env.effects@[i]@,
{
    if 0 <= i < env.channels@.len() {
        sorted_map::lemma_lookup_at(env.channels@, i);
    }
    assert forall|id: u64| #[trigger] env@.channels.contains_key(id) implies exists|k: int|
        0 <= k < env.channels@.len() && (#[trigger] env.channels@[k]).0 == id by {
        let k = choose|k: int| sorted_map::entry_at(env.channels@, id, k);
        assert(env.channels@[k].0 == id);
    }
}

/// The view of an effect tells every field.
pub proof fn law_effect_told(effect: Effect)
    ensures
        effect matches Effect::Write(key) ==> effect@ == EffectView::Write(key),
        effect matches Effect::ExtendTtl(key) ==> effect@ == EffectView::ExtendTtl(key),
        effect is ExtendInstanceTtl ==> effect@ == EffectView::ExtendInstanceTtl,
        effect matches Effect::Transfer(transfer) ==> effect@ == EffectView::Transfer(transfer),
        effect matches Effect::Opened(event) ==> effect@ == (EffectView::Opened {
            channel_id: event.channel_id,
            sender: event.sender,
            receiver: event.receiver,
            deposits: event.deposits@,
            challenge_period: event.challenge_period,
        }),
        effect matches Effect::Updated(event) ==> effect@ == (EffectView::Updated {
            channel_id: event.channel_id,
            nonce: event.nonce,
            balances: event.balances@,
            phase: event.phase,
        }),
        effect matches Effect::Settled(event) ==> effect@ == (EffectView::Settled {
            channel_id: event.channel_id,
            receiver_payouts: event.receiver_payouts@,
            sender_refunds: event.sender_refunds@,
        }),
{
}

/// What a signed payload holds, in order: the 21 bytes of
/// `accensa-ma-channel-v1`, the contract, the id and the nonce in eight bytes
/// each, and the balances.
pub proof fn law_payload_parts(contract: Address, channel_id: u64, state: StateView)
    ensures
        ({
            let whole = multi_asset::payload(contract, channel_id, state);
            let n = 21 + xdr::xdr_address(contract).len() as int;
            &&& whole.take(21) == seq![
                97u8, 99, 99, 101, 110, 115, 97, 45, 109, 97, 45, 99, 104, 97, 110, 110, 101, 108,
                45, 118, 49,
            ]
            &&& whole.subrange(21, n) == xdr::xdr_address(contract)
            &&& whole.subrange(n, n + 8) == bytes::be_bytes(channel_id as nat, 8)
            &&& whole.subrange(n + 8, n + 16) == bytes::be_bytes(state.nonce as nat, 8)
            &&& whole.skip(n + 16) == xdr::xdr_balances(state.balances)
        }),
{
    let whole = multi_asset::payload(contract, channel_id, state);
    let n = 21 + xdr::xdr_address(contract).len() as int;
    bytes::lemma_be_bytes_len(channel_id as nat, 8);
    bytes::lemma_be_bytes_len(state.nonce as nat, 8);
    assert(whole.take(21) =~= multi_asset::PAYLOAD_DOMAIN@);
    assert(multi_asset::PAYLOAD_DOMAIN@ =~= seq![
        97u8, 99, 99, 101, 110, 115, 97, 45, 109, 97, 45, 99, 104, 97, 110, 110, 101, 108, 45, 118,
        49,
    ]);
    assert(whole.subrange(21, n) =~= xdr::xdr_address(contract));
    assert(whole.subrange(n, n + 8) =~= bytes::be_bytes(channel_id as nat, 8));
    assert(whole.subrange(n + 8, n + 16) =~= bytes::be_bytes(state.nonce as nat, 8));
    assert(whole.skip(n + 16) =~= xdr::xdr_balances(state.balances));
}

/// All that is asked of a call's surroundings and of a state: channels stand in
/// the order of their ids, assets and balances in the order of their addresses,
/// and there are no more balances than an encoded map can count.
pub proof fn law_what_is_asked(env: ChannelEnv, state: MultiAssetState)
    ensures
        env.wf() <==> {
            &&& sorted_map::sorted(env.channels@)
            &&& forall|i: int|
                0 <= i < env.channels@.len() ==> sorted_map::sorted(
                    (#[trigger] env.channels@[i]).1.assets@,
                )
        },
        state.wf() <==> sorted_map::sorted(state.balances@) && state.balances@.len() <= u32::MAX,
{
    let entries = env.channels@;
    if sorted_map::sorted(entries) {
        assert forall|i: int| 0 <= i < entries.len() implies env.channels.to_map().contains_key(
            (#[trigger] entries[i]).0,
        ) && env.channels.to_map()[entries[i].0] == entries[i].1 by {
            sorted_map::lemma_lookup_at(entries, i);
        }
        assert forall|id: u64| #[trigger] env.channels.to_map().contains_key(id) implies exists|
            k: int,
        |
            0 <= k < entries.len() && (#[trigger] entries[k]).0 == id by {
            let k = choose|k: int| sorted_map::entry_at(entries, id, k);
            assert(entries[k].0 == id);
        }
    }
}

} // verus!
