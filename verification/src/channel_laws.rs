//! What holds of multi-asset channels over the whole of their lives.

use vstd::prelude::*;

use crate::address::Address;
use crate::bytes;
use crate::dispute;
use crate::error::Error;
use crate::multi_asset;
use crate::multi_asset::{
    BalanceRecord, ChannelEnvView, ChannelPhase, ChannelView, DataKey, EffectView, StateView,
};
use crate::sorted_map;
use crate::sorted_map::Key;
use crate::token::Transfer;
use crate::xdr;

verus! {

/// Every asset is escrowed, and the receiver is owed no more of it than that.
pub open spec fn conserving(assets: Seq<(Address, BalanceRecord)>) -> bool {
    forall|i: int|
        0 <= i < assets.len() ==> {
            &&& (#[trigger] assets[i]).1.deposit > 0
            &&& 0 <= assets[i].1.receiver_balance <= assets[i].1.deposit
        }
}

/// A channel as the contract keeps it: it pools at least one asset and no more
/// than [`multi_asset::MAX_ASSETS`], none of them twice, conserves each of them, and has
/// no closing ledger while it is open.
pub open spec fn sound(channel: ChannelView) -> bool {
    &&& 1 <= channel.assets.len() <= multi_asset::MAX_ASSETS
    &&& sorted_map::sorted(channel.assets)
    &&& conserving(channel.assets)
    &&& channel.phase == ChannelPhase::Open ==> channel.closed_at == 0
}

/// Storage as the contract keeps it: every channel is sound, and its id was
/// handed out.
pub open spec fn sound_env(env: ChannelEnvView) -> bool {
    forall|id: u64| #[trigger]
        env.channels.contains_key(id) ==> sound(env.channels[id]) && 1 <= id
            <= multi_asset::opened_count(env)
}

/// Everything of a channel that no state can change: the parties, the key, the
/// assets and their deposits, and the periods.
pub open spec fn same_terms(a: ChannelView, b: ChannelView) -> bool {
    &&& a.sender == b.sender
    &&& a.receiver == b.receiver
    &&& a.sender_pubkey == b.sender_pubkey
    &&& a.opened_at == b.opened_at
    &&& a.challenge_period == b.challenge_period
    &&& a.assets.len() == b.assets.len()
    &&& forall|i: int|
        0 <= i < a.assets.len() ==> (#[trigger] a.assets[i]).0 == b.assets[i].0
            && a.assets[i].1.deposit == b.assets[i].1.deposit
}

/// The balances of `state` lie within the deposits of `assets`.
pub open spec fn within_deposits(
    assets: Seq<(Address, BalanceRecord)>,
    balances: Seq<(Address, i128)>,
) -> bool {
    forall|i: int|
        0 <= i < balances.len() && sorted_map::has_key(assets, (#[trigger] balances[i]).0) ==> 0
            <= balances[i].1 <= sorted_map::lookup(assets, balances[i].0)->0.deposit
}

/// Every asset that `balances` names is one of `assets`.
pub open spec fn all_known(
    assets: Seq<(Address, BalanceRecord)>,
    balances: Seq<(Address, i128)>,
) -> bool {
    forall|i: int|
        0 <= i < balances.len() ==> sorted_map::has_key(assets, (#[trigger] balances[i]).0)
}

/// No fault from `from` on means that everything from there on is in order.
proof fn lemma_no_fault(
    assets: Seq<(Address, BalanceRecord)>,
    balances: Seq<(Address, i128)>,
    from: int,
)
    requires
        0 <= from <= balances.len(),
    ensures
        multi_asset::balance_fault(assets, balances, from) is None <==> forall|i: int|
            from <= i < balances.len() ==> sorted_map::has_key(assets, (#[trigger] balances[i]).0)
                && 0 <= balances[i].1 <= sorted_map::lookup(assets, balances[i].0)->0.deposit,
        (forall|i: int|
            from <= i < balances.len() && sorted_map::has_key(assets, (#[trigger] balances[i]).0)
                ==> 0 <= balances[i].1 <= sorted_map::lookup(
                assets,
                balances[i].0,
            )->0.deposit) ==> multi_asset::balance_fault(assets, balances, from) != Some(
            Error::ExceedsPayment,
        ),
        (forall|i: int|
            from <= i < balances.len() ==> sorted_map::has_key(assets, (#[trigger] balances[i]).0))
            ==> multi_asset::balance_fault(assets, balances, from) != Some(Error::UnsupportedAsset),
        multi_asset::balance_fault(assets, balances, from) is None || multi_asset::balance_fault(
            assets,
            balances,
            from,
        ) == Some(Error::ExceedsPayment) || multi_asset::balance_fault(assets, balances, from)
            == Some(Error::UnsupportedAsset),
    decreases balances.len() - from,
{
    if from < balances.len() {
        lemma_no_fault(assets, balances, from + 1);
        assert(balances[from] == (balances[from].0, balances[from].1));
    }
}

/// A correctly signed state is accepted exactly when it is fresh, names the
/// channel's assets and no others, and keeps every balance within the deposit
/// of the same asset.
pub proof fn law_state_accepted_iff(channel: ChannelView, state: StateView, require_newer: bool)
    requires
        sorted_map::sorted(channel.assets),
        sorted_map::sorted(state.balances),
    ensures
        multi_asset::apply_result(channel, state, require_newer) is Ok <==> {
            &&& require_newer ==> state.nonce > channel.nonce
            &&& sorted_map::keys(state.balances) == sorted_map::keys(channel.assets)
            &&& forall|i: int|
                0 <= i < state.balances.len() ==> 0 <= (#[trigger] state.balances[i]).1
                    <= channel.assets[i].1.deposit
        },
{
    let named = state.balances;
    let held = channel.assets;
    lemma_no_fault(held, named, 0);
    assert(named.len() == sorted_map::keys(named).len());
    assert(held.len() == sorted_map::keys(held).len());
    if named.len() == held.len() && all_known(held, named) {
        sorted_map::lemma_same_keys(named, held);
    }
    if sorted_map::keys(named) == sorted_map::keys(held) {
        assert forall|i: int| 0 <= i < named.len() implies (#[trigger] named[i]).0 == held[i].0
            && sorted_map::has_key(held, named[i].0) && sorted_map::lookup(held, named[i].0)
            == Some(held[i].1) by {
            assert(sorted_map::keys(named)[i] == named[i].0);
            assert(sorted_map::keys(held)[i] == held[i].0);
            sorted_map::lemma_lookup_at(held, i);
        }
    }
}

/// A fresh state that leaves an asset out or names another is refused with
/// `UnsupportedAsset`, as long as no balance that it does name oversteps the
/// deposit of its asset; whatever else it says, it is refused.
pub proof fn law_asset_set_enforced(channel: ChannelView, state: StateView, require_newer: bool)
    requires
        sorted_map::sorted(channel.assets),
        sorted_map::sorted(state.balances),
        sorted_map::keys(state.balances) != sorted_map::keys(channel.assets),
    ensures
        multi_asset::apply_result(channel, state, require_newer) is Err,
        (require_newer ==> state.nonce > channel.nonce) && within_deposits(
            channel.assets,
            state.balances,
        ) ==> multi_asset::apply_result(channel, state, require_newer) == Err::<ChannelView, Error>(
            Error::UnsupportedAsset,
        ),
{
    law_state_accepted_iff(channel, state, require_newer);
    lemma_no_fault(channel.assets, state.balances, 0);
}

/// A fresh state on the channel's own assets is refused with `ExceedsPayment`
/// exactly when some balance is negative or above the deposit of its asset,
/// whatever the deposits of the other assets.
pub proof fn law_no_value_between_assets(
    channel: ChannelView,
    state: StateView,
    require_newer: bool,
)
    requires
        sorted_map::sorted(channel.assets),
        sorted_map::sorted(state.balances),
        sorted_map::keys(state.balances) == sorted_map::keys(channel.assets),
        require_newer ==> state.nonce > channel.nonce,
    ensures
        multi_asset::apply_result(channel, state, require_newer) == Err::<ChannelView, Error>(
            Error::ExceedsPayment,
        ) <==> exists|i: int|
            0 <= i < state.balances.len() && !(0 <= (#[trigger] state.balances[i]).1
                <= channel.assets[i].1.deposit),
{
    let named = state.balances;
    let held = channel.assets;
    law_state_accepted_iff(channel, state, require_newer);
    lemma_no_fault(held, named, 0);
    assert(named.len() == sorted_map::keys(named).len());
    assert(held.len() == sorted_map::keys(held).len());
    assert forall|i: int| 0 <= i < named.len() implies sorted_map::has_key(
        held,
        (#[trigger] named[i]).0,
    ) by {
        assert(sorted_map::keys(named)[i] == named[i].0);
        assert(sorted_map::keys(held)[i] == held[i].0);
        sorted_map::lemma_lookup_at(held, i);
    }
}

/// An accepted state keeps the terms of the channel, keeps it sound, and puts
/// exactly the state's balances into it.
pub proof fn law_accepted_state_applied(channel: ChannelView, state: StateView, require_newer: bool)
    requires
        sound(channel),
        sorted_map::sorted(state.balances),
        multi_asset::apply_result(channel, state, require_newer) is Ok,
    ensures
        ({
            let next = multi_asset::apply_result(channel, state, require_newer)->Ok_0;
            &&& same_terms(channel, next)
            &&& sound(next)
            &&& next.nonce == state.nonce
            &&& next.phase == channel.phase
            &&& next.closed_at == channel.closed_at
            &&& multi_asset::receiver_shares(next.assets) == state.balances
        }),
{
    law_state_accepted_iff(channel, state, require_newer);
    let next = multi_asset::applied(channel, state);
    let named = state.balances;
    let held = channel.assets;
    assert(named.len() == sorted_map::keys(named).len());
    assert(held.len() == sorted_map::keys(held).len());
    assert forall|i: int| 0 <= i < held.len() implies named[i].0 == held[i].0 by {
        assert(sorted_map::keys(named)[i] == named[i].0);
        assert(sorted_map::keys(held)[i] == held[i].0);
    }
    assert forall|i: int| 0 <= i < held.len() implies multi_asset::receiver_shares(next.assets)[i]
        == named[i] by {
        assert(held[i].0 == named[i].0);
    }
    assert(multi_asset::receiver_shares(next.assets) =~= named);
    assert forall|i: int| 0 <= i < next.assets.len() implies (#[trigger] next.assets[i]).1.deposit
        > 0 && 0 <= next.assets[i].1.receiver_balance <= next.assets[i].1.deposit by {
        assert(held[i].1.deposit > 0);
        assert(0 <= named[i].1 <= held[i].1.deposit);
    }
    assert forall|i: int, j: int|
        #![trigger next.assets[i], next.assets[j]]
        0 <= i < j < next.assets.len() implies next.assets[i].0.before(next.assets[j].0) by {
        assert(held[i].0.before(held[j].0));
    }
}

/// `open` hands out an id that no channel had, and leaves storage sound.
pub proof fn law_open_sound(
    env: ChannelEnvView,
    sender: Address,
    receiver: Address,
    sender_pubkey: Seq<u8>,
    deposits: Seq<(Address, i128)>,
    challenge_period: u32,
)
    requires
        sound_env(env),
        sorted_map::sorted(deposits),
        multi_asset::open_result(env, deposits) is Ok,
        multi_asset::opened_count(env) < u64::MAX,
    ensures
        ({
            let id = multi_asset::open_result(env, deposits)->Ok_0;
            let after = multi_asset::opened(
                env,
                sender,
                receiver,
                sender_pubkey,
                deposits,
                challenge_period,
            );
            &&& !env.channels.contains_key(id)
            &&& sound_env(after)
            &&& after.channels.dom() == env.channels.dom().insert(id)
            &&& forall|other: u64| #[trigger]
                env.channels.contains_key(other) ==> after.channels[other] == env.channels[other]
            &&& after.channels[id].phase == ChannelPhase::Open
            &&& forall|i: int|
                0 <= i < deposits.len() ==> (#[trigger] after.channels[id].assets[i]) == (
                    deposits[i].0,
                    BalanceRecord { deposit: deposits[i].1, receiver_balance: 0 },
                )
        }),
{
    let id = multi_asset::next_id(env);
    let after = multi_asset::opened(
        env,
        sender,
        receiver,
        sender_pubkey,
        deposits,
        challenge_period,
    );
    let made = after.channels[id];
    assert forall|i: int, j: int|
        #![trigger made.assets[i], made.assets[j]]
        0 <= i < j < made.assets.len() implies made.assets[i].0.before(made.assets[j].0) by {
        assert(deposits[i].0.before(deposits[j].0));
    }
    assert forall|i: int| 0 <= i < made.assets.len() implies (#[trigger] made.assets[i]).1.deposit
        > 0 && 0 <= made.assets[i].1.receiver_balance <= made.assets[i].1.deposit by {
        assert(deposits[i].1 > 0);
    }
    assert(sound(made));
    assert forall|other: u64| #[trigger] after.channels.contains_key(other) implies sound(
        after.channels[other],
    ) && 1 <= other <= multi_asset::opened_count(after) by {
        if other != id {
            assert(env.channels.contains_key(other));
        }
    }
    assert(after.channels.dom() =~= env.channels.dom().insert(id));
}

/// What a call on one channel leaves alone: every other channel, the number of
/// channels, and the terms of the channel itself.
pub open spec fn only_touches(env: ChannelEnvView, after: ChannelEnvView, channel_id: u64) -> bool {
    &&& after.channels.dom() == env.channels.dom()
    &&& forall|other: u64| #[trigger]
        env.channels.contains_key(other) && other != channel_id ==> after.channels[other]
            == env.channels[other]
    &&& same_terms(env.channels[channel_id], after.channels[channel_id])
    &&& after.channel_count == env.channel_count
    &&& after.token == env.token
    &&& after.max_channel_lifetime == env.max_channel_lifetime
    &&& env.effects.is_prefix_of(after.effects)
}

proof fn lemma_sound_after(env: ChannelEnvView, after: ChannelEnvView, channel_id: u64)
    requires
        sound_env(env),
        env.channels.contains_key(channel_id),
        only_touches(env, after, channel_id),
        sound(after.channels[channel_id]),
    ensures
        sound_env(after),
{
    assert forall|id: u64| #[trigger] after.channels.contains_key(id) implies sound(
        after.channels[id],
    ) && 1 <= id <= multi_asset::opened_count(after) by {
        assert(env.channels.dom().contains(id));
        assert(env.channels.contains_key(id));
    }
}

/// A successful `update` raises the nonce, touches nothing but its channel's
/// state, and leaves storage sound. It transfers nothing.
pub proof fn law_update_sound(env: ChannelEnvView, channel_id: u64, state: StateView)
    requires
        sound_env(env),
        sorted_map::sorted(state.balances),
        multi_asset::update_result(env, channel_id, state) is Ok,
    ensures
        ({
            let after = multi_asset::updated(env, channel_id, state);
            let channel = env.channels[channel_id];
            let next = after.channels[channel_id];
            &&& sound_env(after)
            &&& only_touches(env, after, channel_id)
            &&& next.nonce > channel.nonce
            &&& next.nonce == state.nonce
            &&& next.phase == channel.phase
            &&& multi_asset::receiver_shares(next.assets) == state.balances
            &&& forall|token: Address, who: Address| #[trigger]
                received(after.effects, token, who) == received(env.effects, token, who)
            &&& forall|token: Address, who: Address| #[trigger]
                spent(after.effects, token, who) == spent(env.effects, token, who)
        }),
{
    let after = multi_asset::updated(env, channel_id, state);
    law_accepted_state_applied(env.channels[channel_id], state, true);
    assert(after.channels.dom() =~= env.channels.dom());
    lemma_sound_after(env, after, channel_id);
    lemma_announcement_moves_nothing(env, channel_id, after.channels[channel_id], state);
}

/// A successful `close` never lowers the nonce, touches nothing but its
/// channel's state, and leaves storage sound. It transfers nothing.
pub proof fn law_close_sound(env: ChannelEnvView, channel_id: u64, state: StateView)
    requires
        sound_env(env),
        sorted_map::sorted(state.balances),
        multi_asset::close_result(env, channel_id, state) is Ok,
    ensures
        ({
            let after = multi_asset::closed(env, channel_id, state);
            let channel = env.channels[channel_id];
            let next = after.channels[channel_id];
            &&& sound_env(after)
            &&& only_touches(env, after, channel_id)
            &&& next.nonce >= channel.nonce
            &&& next.nonce == state.nonce
            &&& next.phase == ChannelPhase::Closed
            &&& next.closed_at == env.sequence
            &&& multi_asset::receiver_shares(next.assets) == state.balances
            &&& forall|token: Address, who: Address| #[trigger]
                received(after.effects, token, who) == received(env.effects, token, who)
            &&& forall|token: Address, who: Address| #[trigger]
                spent(after.effects, token, who) == spent(env.effects, token, who)
        }),
{
    let after = multi_asset::closed(env, channel_id, state);
    law_accepted_state_applied(env.channels[channel_id], state, false);
    assert(after.channels.dom() =~= env.channels.dom());
    lemma_sound_after(env, after, channel_id);
    lemma_announcement_moves_nothing(env, channel_id, after.channels[channel_id], state);
}

/// A successful `settle` changes nothing of its channel but the phase, and
/// leaves storage sound.
pub proof fn law_settle_sound(env: ChannelEnvView, channel_id: u64)
    requires
        sound_env(env),
        multi_asset::settle_result(env, channel_id) is Ok,
    ensures
        ({
            let after = multi_asset::settled(env, channel_id);
            &&& sound_env(after)
            &&& only_touches(env, after, channel_id)
            &&& after.channels[channel_id] == (ChannelView {
                phase: ChannelPhase::Finalized,
                ..env.channels[channel_id]
            })
        }),
{
    let after = multi_asset::settled(env, channel_id);
    assert(after.channels.dom() =~= env.channels.dom());
    lemma_sound_after(env, after, channel_id);
}

/// A sound channel settles exactly once its challenge window has elapsed or,
/// while it is open, once it has outlived the maximum lifetime; before that
/// the challenge is active, and afterwards the channel is closed for good. The
/// arithmetic never overflows.
pub proof fn law_when_settled(env: ChannelEnvView, channel_id: u64)
    requires
        sound_env(env),
        env.channels.contains_key(channel_id),
    ensures
        ({
            let channel = env.channels[channel_id];
            let due = match channel.phase {
                ChannelPhase::Open => multi_asset::expired(env, channel),
                ChannelPhase::Closed => !dispute::window_runs(
                    env.sequence,
                    channel.closed_at,
                    channel.challenge_period,
                ),
                ChannelPhase::Finalized => false,
            };
            multi_asset::settle_result(env, channel_id) == if due {
                Ok::<(), Error>(())
            } else if channel.phase == ChannelPhase::Finalized {
                Err(Error::ChannelAlreadyClosed)
            } else {
                Err(Error::ChallengeActive)
            }
        }),
{
    assert(sound(env.channels[channel_id]));
}

/// At no ledger can a closed channel be both challenged and settled: the same
/// window that admits `update` holds `settle` back.
pub proof fn law_window_exclusive(env: ChannelEnvView, channel_id: u64, state: StateView)
    requires
        env.channels.contains_key(channel_id),
        env.channels[channel_id].phase == ChannelPhase::Closed,
    ensures
        multi_asset::settle_result(env, channel_id) == Err::<(), Error>(Error::ChallengeActive)
            <==> dispute::window_runs(
            env.sequence,
            env.channels[channel_id].closed_at,
            env.channels[channel_id].challenge_period,
        ),
        multi_asset::update_result(env, channel_id, state) == Err::<(), Error>(
            Error::ChallengeExpired,
        ) <==> !dispute::window_runs(
            env.sequence,
            env.channels[channel_id].closed_at,
            env.channels[channel_id].challenge_period,
        ),
        !(multi_asset::settle_result(env, channel_id) is Ok && multi_asset::update_result(
            env,
            channel_id,
            state,
        ) is Ok),
{
    lemma_no_fault(env.channels[channel_id].assets, state.balances, 0);
}

/// `channel` is what `close`, or an `update` of a closed channel, left in storage.
pub open spec fn window_started(
    env: ChannelEnvView,
    channel_id: u64,
    state: StateView,
    channel: ChannelView,
) -> bool {
    ||| {
        &&& multi_asset::close_result(env, channel_id, state) is Ok
        &&& channel == multi_asset::closed(env, channel_id, state).channels[channel_id]
    }
    ||| {
        &&& multi_asset::update_result(env, channel_id, state) is Ok
        &&& env.channels[channel_id].phase == ChannelPhase::Closed
        &&& channel == multi_asset::updated(env, channel_id, state).channels[channel_id]
    }
}

/// `close`, and every `update` of a closed channel, starts the challenge
/// window anew: until `challenge_period` ledgers have gone by, `settle` is
/// refused.
pub proof fn law_window_rearmed(
    env: ChannelEnvView,
    channel_id: u64,
    state: StateView,
    later: ChannelEnvView,
)
    requires
        later.channels.contains_key(channel_id),
        window_started(env, channel_id, state, later.channels[channel_id]),
        later.sequence <= env.sequence + env.channels[channel_id].challenge_period,
    ensures
        multi_asset::settle_result(later, channel_id) == Err::<(), Error>(Error::ChallengeActive),
{
}

/// No going back: once `update` or `close` has accepted a state, `update`
/// refuses it and every other one with the same or an older nonce, and `close`
/// refuses every one with an older nonce. A `close` may repeat the latest nonce.
pub proof fn law_no_replay(
    env: ChannelEnvView,
    channel_id: u64,
    accepted: StateView,
    channel: ChannelView,
    later: ChannelEnvView,
    replayed: StateView,
)
    requires
        accepted_into(env, channel_id, accepted, channel),
        later.channels.contains_key(channel_id),
        later.channels[channel_id].nonce >= channel.nonce,
    ensures
        replayed.nonce <= accepted.nonce ==> multi_asset::update_result(
            later,
            channel_id,
            replayed,
        ) is Err,
        replayed.nonce < accepted.nonce ==> multi_asset::close_result(
            later,
            channel_id,
            replayed,
        ) is Err,
{
}

/// A settled channel stays settled: every further `update`, `close` and
/// `settle` is refused.
pub proof fn law_finalized_is_final(
    env: ChannelEnvView,
    channel_id: u64,
    later: ChannelEnvView,
    state: StateView,
)
    requires
        multi_asset::settle_result(env, channel_id) is Ok,
        later.channels.contains_key(channel_id),
        later.channels[channel_id].phase == multi_asset::settled(
            env,
            channel_id,
        ).channels[channel_id].phase,
    ensures
        multi_asset::settle_result(later, channel_id) == Err::<(), Error>(
            Error::ChannelAlreadyClosed,
        ),
        multi_asset::update_result(later, channel_id, state) == Err::<(), Error>(
            Error::ChannelNotOpen,
        ),
        multi_asset::close_result(later, channel_id, state) == Err::<(), Error>(
            Error::ChannelNotOpen,
        ),
{
}

/// What the transfers among `effects` bring to `to`, of one token.
pub open spec fn received(effects: Seq<EffectView>, token: Address, to: Address) -> int
    decreases effects.len(),
{
    if effects.len() == 0 {
        0
    } else {
        received(effects.drop_last(), token, to) + match effects.last() {
            EffectView::Transfer(transfer) => if transfer.token == token && transfer.to == to {
                transfer.amount as int
            } else {
                0
            },
            _ => 0,
        }
    }
}

/// What the transfers among `effects` take from `from`, of one token.
pub open spec fn spent(effects: Seq<EffectView>, token: Address, from: Address) -> int
    decreases effects.len(),
{
    if effects.len() == 0 {
        0
    } else {
        spent(effects.drop_last(), token, from) + match effects.last() {
            EffectView::Transfer(transfer) => if transfer.token == token && transfer.from == from {
                transfer.amount as int
            } else {
                0
            },
            _ => 0,
        }
    }
}

proof fn lemma_received_concat(a: Seq<EffectView>, b: Seq<EffectView>, token: Address, to: Address)
    ensures
        received(a + b, token, to) == received(a, token, to) + received(b, token, to),
    decreases b.len(),
{
    if b.len() == 0 {
        assert(a + b =~= a);
    } else {
        assert((a + b).drop_last() =~= a + b.drop_last());
        lemma_received_concat(a, b.drop_last(), token, to);
    }
}

proof fn lemma_spent_concat(a: Seq<EffectView>, b: Seq<EffectView>, token: Address, from: Address)
    ensures
        spent(a + b, token, from) == spent(a, token, from) + spent(b, token, from),
    decreases b.len(),
{
    if b.len() == 0 {
        assert(a + b =~= a);
    } else {
        assert((a + b).drop_last() =~= a + b.drop_last());
        lemma_spent_concat(a, b.drop_last(), token, from);
    }
}

/// Effects that are no transfers move nothing.
proof fn lemma_no_transfer(effects: Seq<EffectView>, token: Address, who: Address)
    requires
        forall|i: int| 0 <= i < effects.len() ==> !((#[trigger] effects[i]) is Transfer),
    ensures
        received(effects, token, who) == 0,
        spent(effects, token, who) == 0,
    decreases effects.len(),
{
    if effects.len() > 0 {
        lemma_no_transfer(effects.drop_last(), token, who);
    }
}

proof fn lemma_announcement_moves_nothing(
    env: ChannelEnvView,
    channel_id: u64,
    channel: ChannelView,
    state: StateView,
)
    ensures
        forall|token: Address, who: Address| #[trigger]
            received(multi_asset::announced(env, channel_id, channel, state).effects, token, who)
                == received(env.effects, token, who),
        forall|token: Address, who: Address| #[trigger]
            spent(multi_asset::announced(env, channel_id, channel, state).effects, token, who)
                == spent(env.effects, token, who),
{
    let after = multi_asset::announced(env, channel_id, channel, state);
    let added = seq![
        EffectView::Write(DataKey::MultiAssetChannel(channel_id)),
        EffectView::ExtendTtl(DataKey::MultiAssetChannel(channel_id)),
        EffectView::Updated {
            channel_id,
            nonce: state.nonce,
            balances: state.balances,
            phase: channel.phase,
        },
    ];
    assert(after.effects =~= env.effects + added);
    assert forall|token: Address, who: Address| #[trigger]
        received(after.effects, token, who) == received(env.effects, token, who) by {
        lemma_received_concat(env.effects, added, token, who);
        lemma_no_transfer(added, token, who);
    }
    assert forall|token: Address, who: Address| #[trigger]
        spent(after.effects, token, who) == spent(env.effects, token, who) by {
        lemma_spent_concat(env.effects, added, token, who);
        lemma_no_transfer(added, token, who);
    }
}

/// What `to` is due of an asset when `channel` is settled.
pub open spec fn due(channel: ChannelView, record: BalanceRecord, to: Address) -> int {
    (if to == channel.receiver {
        record.receiver_balance as int
    } else {
        0
    }) + (if to == channel.sender {
        record.deposit - record.receiver_balance
    } else {
        0
    })
}

/// What the settlement of one asset moves.
proof fn lemma_asset_payout(
    contract: Address,
    channel: ChannelView,
    asset: Address,
    record: BalanceRecord,
    token: Address,
    who: Address,
)
    requires
        0 <= record.receiver_balance <= record.deposit,
    ensures
        ({
            let paid = multi_asset::asset_payout(contract, channel, asset, record);
            &&& received(paid, token, who) == if token == asset {
                due(channel, record, who)
            } else {
                0
            }
            &&& spent(paid, token, who) == if token == asset && who == contract {
                record.deposit as int
            } else {
                0
            }
        }),
{
    let paid = multi_asset::asset_payout(contract, channel, asset, record);
    reveal_with_fuel(received, 3);
    reveal_with_fuel(spent, 3);
    if paid.len() == 2 {
        assert(paid.drop_last() =~= seq![paid[0]]);
        assert(paid.drop_last().drop_last() =~= seq![]);
    } else if paid.len() == 1 {
        assert(paid.drop_last() =~= seq![]);
    }
}

/// What the settlement of the first `n` assets moves of the asset at `k`.
proof fn lemma_payouts(
    contract: Address,
    channel: ChannelView,
    n: int,
    k: int,
    who: Address,
)
    requires
        sound(channel),
        0 <= n <= channel.assets.len(),
        0 <= k < channel.assets.len(),
    ensures
        ({
            let paid = multi_asset::payouts(contract, channel, n);
            let (token, record) = channel.assets[k];
            &&& received(paid, token, who) == if k < n {
                due(channel, record, who)
            } else {
                0
            }
            &&& spent(paid, token, who) == if k < n && who == contract {
                record.deposit as int
            } else {
                0
            }
        }),
    decreases n,
{
    if n > 0 {
        let (token, record) = channel.assets[k];
        let (asset, last) = channel.assets[n - 1];
        let before = multi_asset::payouts(contract, channel, n - 1);
        let paid = multi_asset::asset_payout(contract, channel, asset, last);
        lemma_payouts(contract, channel, n - 1, k, who);
        lemma_received_concat(before, paid, token, who);
        lemma_spent_concat(before, paid, token, who);
        lemma_asset_payout(contract, channel, asset, last, token, who);
        Address::irreflexive(token);
        if k < n - 1 {
            assert(channel.assets[k].0.before(channel.assets[n - 1].0));
        } else if k > n - 1 {
            assert(channel.assets[n - 1].0.before(channel.assets[k].0));
        }
    }
}

/// Settlement moves nothing of a token that the channel does not hold.
proof fn lemma_payouts_of_others(
    contract: Address,
    channel: ChannelView,
    n: int,
    token: Address,
    who: Address,
)
    requires
        sound(channel),
        0 <= n <= channel.assets.len(),
        !sorted_map::has_key(channel.assets, token),
    ensures
        received(multi_asset::payouts(contract, channel, n), token, who) == 0,
        spent(multi_asset::payouts(contract, channel, n), token, who) == 0,
    decreases n,
{
    if n > 0 {
        let (asset, last) = channel.assets[n - 1];
        let before = multi_asset::payouts(contract, channel, n - 1);
        let paid = multi_asset::asset_payout(contract, channel, asset, last);
        lemma_payouts_of_others(contract, channel, n - 1, token, who);
        lemma_received_concat(before, paid, token, who);
        lemma_spent_concat(before, paid, token, who);
        lemma_asset_payout(contract, channel, asset, last, token, who);
        assert(!sorted_map::entry_at(channel.assets, token, n - 1));
    }
}

/// What `settle` adds to the effects moves what the payouts move.
proof fn lemma_settled_moves(env: ChannelEnvView, channel_id: u64, token: Address, who: Address)
    ensures
        ({
            let channel = env.channels[channel_id];
            let after = multi_asset::settled(env, channel_id);
            let paid = multi_asset::payouts(
                env.contract,
                channel,
                channel.assets.len() as int,
            );
            &&& received(after.effects, token, who) == received(env.effects, token, who) + received(
                paid,
                token,
                who,
            )
            &&& spent(after.effects, token, who) == spent(env.effects, token, who) + spent(
                paid,
                token,
                who,
            )
        }),
{
    let channel = env.channels[channel_id];
    let after = multi_asset::settled(env, channel_id);
    let paid = multi_asset::payouts(env.contract, channel, channel.assets.len() as int);
    let head = seq![
        EffectView::Write(DataKey::MultiAssetChannel(channel_id)),
        EffectView::ExtendTtl(DataKey::MultiAssetChannel(channel_id)),
    ];
    let tail = seq![
        EffectView::Settled {
            channel_id,
            receiver_payouts: multi_asset::receiver_shares(channel.assets),
            sender_refunds: multi_asset::sender_shares(channel.assets),
        },
    ];
    assert(after.effects =~= env.effects + head + paid + tail);
    lemma_received_concat(env.effects + head + paid, tail, token, who);
    lemma_received_concat(env.effects + head, paid, token, who);
    lemma_received_concat(env.effects, head, token, who);
    lemma_spent_concat(env.effects + head + paid, tail, token, who);
    lemma_spent_concat(env.effects + head, paid, token, who);
    lemma_spent_concat(env.effects, head, token, who);
    lemma_no_transfer(head, token, who);
    lemma_no_transfer(tail, token, who);
}

/// Per-asset conservation: of every asset, settlement pays the receiver their
/// balance and the sender the rest of the deposit of the same token, so that
/// exactly the deposit leaves the contract.
pub proof fn law_settlement_conserves(env: ChannelEnvView, channel_id: u64, i: int, to: Address)
    requires
        sound_env(env),
        multi_asset::settle_result(env, channel_id) is Ok,
        0 <= i < env.channels[channel_id].assets.len(),
    ensures
        ({
            let channel = env.channels[channel_id];
            let (token, record) = channel.assets[i];
            let after = multi_asset::settled(env, channel_id);
            &&& received(after.effects, token, to) - received(env.effects, token, to) == due(
                channel,
                record,
                to,
            )
            &&& spent(after.effects, token, env.contract) - spent(env.effects, token, env.contract)
                == record.deposit
        }),
{
    let channel = env.channels[channel_id];
    let n = channel.assets.len() as int;
    assert(sound(channel));
    lemma_settled_moves(env, channel_id, channel.assets[i].0, to);
    lemma_settled_moves(env, channel_id, channel.assets[i].0, env.contract);
    lemma_payouts(env.contract, channel, n, i, to);
    lemma_payouts(env.contract, channel, n, i, env.contract);
}

/// Settlement moves nothing of a token that the channel does not hold.
pub proof fn law_settlement_moves_no_other_token(
    env: ChannelEnvView,
    channel_id: u64,
    token: Address,
    who: Address,
)
    requires
        sound_env(env),
        multi_asset::settle_result(env, channel_id) is Ok,
        !sorted_map::has_key(env.channels[channel_id].assets, token),
    ensures
        ({
            let after = multi_asset::settled(env, channel_id);
            &&& received(after.effects, token, who) == received(env.effects, token, who)
            &&& spent(after.effects, token, who) == spent(env.effects, token, who)
        }),
{
    let channel = env.channels[channel_id];
    assert(sound(channel));
    lemma_settled_moves(env, channel_id, token, who);
    lemma_payouts_of_others(env.contract, channel, channel.assets.len() as int, token, who);
}

/// What `settle` announces is what it pays: the receiver's balances of the
/// latest state, and for each asset the rest of the deposit.
pub proof fn law_settlement_announced(env: ChannelEnvView, channel_id: u64)
    requires
        sound_env(env),
        multi_asset::settle_result(env, channel_id) is Ok,
    ensures
        ({
            let assets = env.channels[channel_id].assets;
            let payouts = multi_asset::receiver_shares(assets);
            let refunds = multi_asset::sender_shares(assets);
            &&& multi_asset::settled(env, channel_id).effects.last() == (EffectView::Settled {
                channel_id,
                receiver_payouts: payouts,
                sender_refunds: refunds,
            })
            &&& payouts.len() == assets.len()
            &&& refunds.len() == assets.len()
            &&& forall|i: int|
                0 <= i < assets.len() ==> {
                    &&& (#[trigger] assets[i]).0 == payouts[i].0
                    &&& assets[i].0 == refunds[i].0
                    &&& payouts[i].1 + refunds[i].1 == assets[i].1.deposit
                    &&& payouts[i].1 >= 0
                    &&& refunds[i].1 >= 0
                }
        }),
{
    let assets = env.channels[channel_id].assets;
    assert(sound(env.channels[channel_id]));
    assert forall|i: int| 0 <= i < assets.len() implies multi_asset::sender_shares(assets)[i].1
        == multi_asset::refund_of((#[trigger] assets[i]).1) by {
        assert(i128::MIN <= multi_asset::refund_of(assets[i].1) <= i128::MAX);
    }
}

/// `channel` is what an `update` or a `close` with `state` left in storage.
pub open spec fn accepted_into(
    env: ChannelEnvView,
    channel_id: u64,
    state: StateView,
    channel: ChannelView,
) -> bool {
    ||| {
        &&& multi_asset::update_result(env, channel_id, state) is Ok
        &&& channel == multi_asset::updated(env, channel_id, state).channels[channel_id]
    }
    ||| {
        &&& multi_asset::close_result(env, channel_id, state) is Ok
        &&& channel == multi_asset::closed(env, channel_id, state).channels[channel_id]
    }
}

/// Settlement pays according to the state that was accepted last: the receiver
/// gets what it says of every asset, and the sender the rest.
pub proof fn law_latest_state_is_paid(
    env: ChannelEnvView,
    channel_id: u64,
    state: StateView,
    later: ChannelEnvView,
    i: int,
)
    requires
        sound_env(env),
        sound_env(later),
        sorted_map::sorted(state.balances),
        accepted_into(env, channel_id, state, later.channels[channel_id]),
        multi_asset::settle_result(later, channel_id) is Ok,
        later.channels[channel_id].receiver != later.channels[channel_id].sender,
        0 <= i < state.balances.len(),
    ensures
        ({
            let channel = later.channels[channel_id];
            let (token, balance) = state.balances[i];
            let end = multi_asset::settled(later, channel_id);
            &&& received(end.effects, token, channel.receiver) - received(
                later.effects,
                token,
                channel.receiver,
            ) == balance
            &&& received(end.effects, token, channel.sender) - received(
                later.effects,
                token,
                channel.sender,
            ) == channel.assets[i].1.deposit - balance
        }),
{
    let channel = later.channels[channel_id];
    if multi_asset::update_result(env, channel_id, state) is Ok && channel == multi_asset::updated(
        env,
        channel_id,
        state,
    ).channels[channel_id] {
        law_update_sound(env, channel_id, state);
    } else {
        law_close_sound(env, channel_id, state);
    }
    assert(multi_asset::receiver_shares(channel.assets)[i] == state.balances[i]);
    law_settlement_conserves(later, channel_id, i, channel.receiver);
    law_settlement_conserves(later, channel_id, i, channel.sender);
}

/// The channel is written as finalized before the first token moves.
pub proof fn law_finalized_before_paid(env: ChannelEnvView, channel_id: u64, i: int)
    requires
        multi_asset::settle_result(env, channel_id) is Ok,
        env.effects.len() <= i < multi_asset::settled(env, channel_id).effects.len(),
        multi_asset::settled(env, channel_id).effects[i] is Transfer,
    ensures
        ({
            let after = multi_asset::settled(env, channel_id);
            &&& after.effects[env.effects.len() as int] == EffectView::Write(
                DataKey::MultiAssetChannel(channel_id),
            )
            &&& i > env.effects.len()
            &&& after.channels[channel_id].phase == ChannelPhase::Finalized
        }),
{
}

/// What the escrow of `deposits` moves of the token at `k`.
proof fn lemma_escrow(
    contract: Address,
    sender: Address,
    deposits: Seq<(Address, i128)>,
    n: int,
    token: Address,
    who: Address,
)
    requires
        sorted_map::sorted(deposits),
        0 <= n <= deposits.len(),
    ensures
        ({
            let moved = multi_asset::escrow_transfers(contract, sender, deposits).take(n);
            &&& forall|k: int|
                0 <= k < deposits.len() && (#[trigger] deposits[k]).0 == token ==> {
                    &&& received(moved, token, who) == if k < n && who == contract {
                        deposits[k].1 as int
                    } else {
                        0
                    }
                    &&& spent(moved, token, who) == if k < n && who == sender {
                        deposits[k].1 as int
                    } else {
                        0
                    }
                }
            &&& !sorted_map::has_key(deposits, token) ==> received(moved, token, who) == 0 && spent(
                moved,
                token,
                who,
            ) == 0
        }),
    decreases n,
{
    let all = multi_asset::escrow_transfers(contract, sender, deposits);
    if n > 0 {
        lemma_escrow(contract, sender, deposits, n - 1, token, who);
        assert(all.take(n).drop_last() =~= all.take(n - 1));
        assert(all.take(n).last() == EffectView::Transfer(
            Transfer {
                token: deposits[n - 1].0,
                from: sender,
                to: contract,
                amount: deposits[n - 1].1,
            },
        ));
        if !sorted_map::has_key(deposits, token) {
            assert(!sorted_map::entry_at(deposits, token, n - 1));
        }
        assert forall|k: int|
            0 <= k < deposits.len() && k != n - 1 && (#[trigger] deposits[k]).0
                == token implies deposits[n - 1].0 != token by {
            Address::irreflexive(token);
            if k < n - 1 {
                assert(deposits[k].0.before(deposits[n - 1].0));
            } else {
                assert(deposits[n - 1].0.before(deposits[k].0));
            }
        }
    }
}

/// `open` takes exactly the deposit of every token from the sender and brings
/// it to the contract; it moves nothing of any other token.
pub proof fn law_open_escrows(
    env: ChannelEnvView,
    sender: Address,
    receiver: Address,
    sender_pubkey: Seq<u8>,
    deposits: Seq<(Address, i128)>,
    challenge_period: u32,
    token: Address,
    who: Address,
)
    requires
        sorted_map::sorted(deposits),
        multi_asset::open_result(env, deposits) is Ok,
    ensures
        ({
            let after = multi_asset::opened(
                env,
                sender,
                receiver,
                sender_pubkey,
                deposits,
                challenge_period,
            );
            let amount = match sorted_map::lookup(deposits, token) {
                Some(amount) => amount as int,
                None => 0,
            };
            &&& received(after.effects, token, who) - received(env.effects, token, who) == if who
                == env.contract {
                amount
            } else {
                0
            }
            &&& spent(after.effects, token, who) - spent(env.effects, token, who) == if who
                == sender {
                amount
            } else {
                0
            }
        }),
{
    let after = multi_asset::opened(
        env,
        sender,
        receiver,
        sender_pubkey,
        deposits,
        challenge_period,
    );
    let id = multi_asset::next_id(env);
    let moved = multi_asset::escrow_transfers(env.contract, sender, deposits);
    let tail = seq![
        EffectView::Write(DataKey::ChannelCount),
        EffectView::ExtendInstanceTtl,
        EffectView::Write(DataKey::MultiAssetChannel(id)),
        EffectView::ExtendTtl(DataKey::MultiAssetChannel(id)),
        EffectView::Opened { channel_id: id, sender, receiver, deposits, challenge_period },
    ];
    assert(after.effects =~= env.effects + moved + tail);
    lemma_received_concat(env.effects + moved, tail, token, who);
    lemma_received_concat(env.effects, moved, token, who);
    lemma_spent_concat(env.effects + moved, tail, token, who);
    lemma_spent_concat(env.effects, moved, token, who);
    lemma_no_transfer(tail, token, who);
    lemma_escrow(env.contract, sender, deposits, deposits.len() as int, token, who);
    assert(moved.take(deposits.len() as int) =~= moved);
    if sorted_map::has_key(deposits, token) {
        let k = choose|k: int| sorted_map::entry_at(deposits, token, k);
        assert(deposits[k].0 == token);
    }
}

/// Over its whole life a channel gives back what it took: of every token, the
/// settlement takes from the contract exactly what `open` brought there,
/// whatever states were accepted in between.
pub proof fn law_escrow_returned(
    env: ChannelEnvView,
    sender: Address,
    receiver: Address,
    sender_pubkey: Seq<u8>,
    deposits: Seq<(Address, i128)>,
    challenge_period: u32,
    later: ChannelEnvView,
    token: Address,
)
    requires
        sorted_map::sorted(deposits),
        multi_asset::open_result(env, deposits) is Ok,
        multi_asset::opened_count(env) < u64::MAX,
        sound_env(env),
        sound_env(later),
        later.contract == env.contract,
        multi_asset::settle_result(later, multi_asset::next_id(env)) is Ok,
        same_terms(
            multi_asset::opened(
                env,
                sender,
                receiver,
                sender_pubkey,
                deposits,
                challenge_period,
            ).channels[multi_asset::next_id(env)],
            later.channels[multi_asset::next_id(env)],
        ),
    ensures
        ({
            let after = multi_asset::opened(
                env,
                sender,
                receiver,
                sender_pubkey,
                deposits,
                challenge_period,
            );
            let end = multi_asset::settled(later, multi_asset::next_id(env));
            spent(end.effects, token, env.contract) - spent(later.effects, token, env.contract)
                == received(after.effects, token, env.contract) - received(
                env.effects,
                token,
                env.contract,
            )
        }),
{
    let id = multi_asset::next_id(env);
    let made = multi_asset::opened(
        env,
        sender,
        receiver,
        sender_pubkey,
        deposits,
        challenge_period,
    ).channels[id];
    let assets = later.channels[id].assets;
    law_open_escrows(
        env,
        sender,
        receiver,
        sender_pubkey,
        deposits,
        challenge_period,
        token,
        env.contract,
    );
    assert forall|i: int| 0 <= i < assets.len() implies (#[trigger] assets[i]).0 == deposits[i].0
        && assets[i].1.deposit == deposits[i].1 by {
        assert(made.assets[i].0 == assets[i].0);
    }
    if sorted_map::has_key(deposits, token) {
        let k = choose|k: int| sorted_map::entry_at(deposits, token, k);
        sorted_map::lemma_lookup_at(deposits, k);
        assert(assets[k].0 == token);
        law_settlement_conserves(later, id, k, env.contract);
    } else {
        assert forall|i: int| !sorted_map::entry_at(assets, token, i) by {
            assert(!sorted_map::entry_at(deposits, token, i));
        }
        law_settlement_moves_no_other_token(later, id, token, env.contract);
    }
}

/// The signed payload binds the contract, the channel, the nonce and every
/// balance: the payload of one state on one channel is not that of any other
/// state, nor of any state on another channel or deployment.
pub proof fn law_payload_binds(
    contract: Address,
    channel_id: u64,
    state: StateView,
    other_contract: Address,
    other_id: u64,
    other: StateView,
)
    requires
        state.balances.len() <= u32::MAX,
        other.balances.len() <= u32::MAX,
        multi_asset::payload(contract, channel_id, state) == multi_asset::payload(
            other_contract,
            other_id,
            other,
        ),
    ensures
        contract == other_contract,
        channel_id == other_id,
        state == other,
{
    let domain = multi_asset::PAYLOAD_DOMAIN@;
    let (a, b) = (
        bytes::be_bytes(channel_id as nat, 8),
        bytes::be_bytes(other_id as nat, 8),
    );
    let (c, d) = (
        bytes::be_bytes(state.nonce as nat, 8),
        bytes::be_bytes(other.nonce as nat, 8),
    );
    let (e, f) = (xdr::xdr_balances(state.balances), xdr::xdr_balances(other.balances));
    let whole = multi_asset::payload(contract, channel_id, state);
    let (x, y) = (a + (c + e), b + (d + f));
    assert(whole.skip(21) =~= xdr::xdr_address(contract) + x);
    assert(whole.skip(21) =~= xdr::xdr_address(other_contract) + y);
    xdr::lemma_address_prefix(contract, other_contract, x, y);
    bytes::lemma_be_bytes_len(channel_id as nat, 8);
    bytes::lemma_be_bytes_len(other_id as nat, 8);
    bytes::lemma_be_bytes_len(state.nonce as nat, 8);
    bytes::lemma_be_bytes_len(other.nonce as nat, 8);
    assert(a =~= x.take(8));
    assert(b =~= y.take(8));
    assert(c =~= x.subrange(8, 16));
    assert(d =~= y.subrange(8, 16));
    assert(e =~= x.skip(16));
    assert(f =~= y.skip(16));
    assert(bytes::byte_range(8) == 0x1_0000_0000_0000_0000) by {
        reveal_with_fuel(bytes::byte_range, 9);
    }
    bytes::lemma_be_bytes_injective(channel_id as nat, other_id as nat, 8);
    bytes::lemma_be_bytes_injective(state.nonce as nat, other.nonce as nat, 8);
    xdr::lemma_balances_injective(state.balances, other.balances);
}

/// A call on the contract, or what goes on between two calls.
pub enum Call {
    Open {
        sender: Address,
        receiver: Address,
        sender_pubkey: Seq<u8>,
        deposits: Seq<(Address, i128)>,
        challenge_period: u32,
    },
    Update { channel_id: u64, state: StateView },
    Close { channel_id: u64, state: StateView },
    Settle { channel_id: u64 },
    /// The ledger goes on, the effects are performed, and the rest of the
    /// contract changes its configuration and hands out ids.
    Meanwhile {
        sequence: u32,
        auths: Seq<Address>,
        token: Option<Address>,
        channel_count: Option<u64>,
        max_channel_lifetime: Option<u32>,
        default_max_channel_lifetime: u32,
    },
}

/// `call` can be made: maps are in order, an id is left for a new channel, and
/// ids that were handed out stay so.
pub open spec fn possible(env: ChannelEnvView, call: Call) -> bool {
    match call {
        Call::Open { deposits, .. } => {
            &&& sorted_map::sorted(deposits)
            &&& multi_asset::open_result(env, deposits) is Ok ==> multi_asset::opened_count(env)
                < u64::MAX
        },
        Call::Update { state, .. } => sorted_map::sorted(state.balances),
        Call::Close { state, .. } => sorted_map::sorted(state.balances),
        Call::Settle { .. } => true,
        Call::Meanwhile { channel_count, .. } => multi_asset::opened_count(env)
            <= multi_asset::opened_count(ChannelEnvView { channel_count, ..env }),
    }
}

/// `env` after `call`, which changes nothing where it is refused.
pub open spec fn after_call(env: ChannelEnvView, call: Call) -> ChannelEnvView {
    match call {
        Call::Open { sender, receiver, sender_pubkey, deposits, challenge_period } => {
            if multi_asset::open_result(env, deposits) is Ok {
                multi_asset::opened(
                    env,
                    sender,
                    receiver,
                    sender_pubkey,
                    deposits,
                    challenge_period,
                )
            } else {
                env
            }
        },
        Call::Update { channel_id, state } => if multi_asset::update_result(
            env,
            channel_id,
            state,
        ) is Ok {
            multi_asset::updated(env, channel_id, state)
        } else {
            env
        },
        Call::Close { channel_id, state } => if multi_asset::close_result(
            env,
            channel_id,
            state,
        ) is Ok {
            multi_asset::closed(env, channel_id, state)
        } else {
            env
        },
        Call::Settle { channel_id } => if multi_asset::settle_result(env, channel_id) is Ok {
            multi_asset::settled(env, channel_id)
        } else {
            env
        },
        Call::Meanwhile {
            sequence,
            auths,
            token,
            channel_count,
            max_channel_lifetime,
            default_max_channel_lifetime,
        } => ChannelEnvView {
            sequence,
            auths,
            token,
            channel_count,
            max_channel_lifetime,
            default_max_channel_lifetime,
            effects: seq![],
            ..env
        },
    }
}

/// `env` after `calls`, in order.
pub open spec fn after_calls(env: ChannelEnvView, calls: Seq<Call>) -> ChannelEnvView
    decreases calls.len(),
{
    if calls.len() == 0 {
        env
    } else {
        after_call(after_calls(env, calls.drop_last()), calls.last())
    }
}

/// Each of `calls` can be made after the ones before it.
pub open spec fn all_possible(env: ChannelEnvView, calls: Seq<Call>) -> bool
    decreases calls.len(),
{
    calls.len() > 0 ==> all_possible(env, calls.drop_last()) && possible(
        after_calls(env, calls.drop_last()),
        calls.last(),
    )
}

/// `later` is what can become of `channel`: the same terms, no older nonce, and
/// no way back to an earlier phase.
pub open spec fn continues(channel: ChannelView, later: ChannelView) -> bool {
    &&& same_terms(channel, later)
    &&& later.nonce >= channel.nonce
    &&& channel.phase == ChannelPhase::Closed ==> later.phase != ChannelPhase::Open
    &&& channel.phase == ChannelPhase::Finalized ==> later == channel
}

proof fn lemma_call_sound(env: ChannelEnvView, call: Call)
    requires
        sound_env(env),
        possible(env, call),
    ensures
        sound_env(after_call(env, call)),
        forall|id: u64| #[trigger]
            env.channels.contains_key(id) ==> after_call(env, call).channels.contains_key(id)
                && continues(env.channels[id], after_call(env, call).channels[id]),
{
    let after = after_call(env, call);
    match call {
        Call::Open { sender, receiver, sender_pubkey, deposits, challenge_period } => {
            if multi_asset::open_result(env, deposits) is Ok {
                law_open_sound(env, sender, receiver, sender_pubkey, deposits, challenge_period);
            }
        },
        Call::Update { channel_id, state } => {
            if multi_asset::update_result(env, channel_id, state) is Ok {
                law_update_sound(env, channel_id, state);
            }
        },
        Call::Close { channel_id, state } => {
            if multi_asset::close_result(env, channel_id, state) is Ok {
                law_close_sound(env, channel_id, state);
            }
        },
        Call::Settle { channel_id } => {
            if multi_asset::settle_result(env, channel_id) is Ok {
                law_settle_sound(env, channel_id);
            }
        },
        Call::Meanwhile { .. } => {
            assert forall|id: u64| #[trigger] after.channels.contains_key(id) implies sound(
                after.channels[id],
            ) && 1 <= id <= multi_asset::opened_count(after) by {
                assert(env.channels.contains_key(id));
            }
        },
    }
}

/// Whatever calls are made, in whatever order and at whatever ledgers, storage
/// stays sound, and every channel keeps its terms, never goes back to an older
/// nonce or an earlier phase, and stays as it is once it is settled.
pub proof fn law_any_history(env: ChannelEnvView, calls: Seq<Call>)
    requires
        sound_env(env),
        all_possible(env, calls),
    ensures
        sound_env(after_calls(env, calls)),
        forall|id: u64| #[trigger]
            env.channels.contains_key(id) ==> after_calls(env, calls).channels.contains_key(id)
                && continues(env.channels[id], after_calls(env, calls).channels[id]),
    decreases calls.len(),
{
    if calls.len() > 0 {
        let before = after_calls(env, calls.drop_last());
        law_any_history(env, calls.drop_last());
        lemma_call_sound(before, calls.last());
        assert forall|id: u64| #[trigger] env.channels.contains_key(id) implies after_calls(
            env,
            calls,
        ).channels.contains_key(id) && continues(
            env.channels[id],
            after_calls(env, calls).channels[id],
        ) by {
            assert(before.channels.contains_key(id));
            let (a, b, c) = (
                env.channels[id],
                before.channels[id],
                after_calls(env, calls).channels[id],
            );
            assert forall|i: int| 0 <= i < a.assets.len() implies (#[trigger] a.assets[i]).0
                == c.assets[i].0 && a.assets[i].1.deposit == c.assets[i].1.deposit by {
                assert(b.assets[i].0 == c.assets[i].0);
            }
        }
    }
}

/// Every channel that can be read from a contract that started without any
/// pools one to [`multi_asset::MAX_ASSETS`] assets, each escrowed, with a
/// balance within its deposit; it has no closing ledger while it is open; and
/// its id was handed out.
pub proof fn law_every_channel_sound(env: ChannelEnvView, calls: Seq<Call>, channel_id: u64)
    requires
        env.channels == Map::<u64, ChannelView>::empty(),
        all_possible(env, calls),
        after_calls(env, calls).channels.contains_key(channel_id),
    ensures
        ({
            let end = after_calls(env, calls);
            let channel = end.channels[channel_id];
            &&& 1 <= channel.assets.len() <= multi_asset::MAX_ASSETS
            &&& sorted_map::sorted(channel.assets)
            &&& forall|i: int|
                0 <= i < channel.assets.len() ==> {
                    &&& (#[trigger] channel.assets[i]).1.deposit > 0
                    &&& 0 <= channel.assets[i].1.receiver_balance <= channel.assets[i].1.deposit
                }
            &&& channel.phase == ChannelPhase::Open ==> channel.closed_at == 0
            &&& 1 <= channel_id <= multi_asset::opened_count(end)
        }),
{
    law_any_history(env, calls);
}

/// Whatever happens after `open`, the channel is there, between the same
/// parties, and holds exactly the assets and the deposits that it was opened
/// with.
pub proof fn law_opened_terms_kept(
    env: ChannelEnvView,
    sender: Address,
    receiver: Address,
    sender_pubkey: Seq<u8>,
    deposits: Seq<(Address, i128)>,
    challenge_period: u32,
    calls: Seq<Call>,
)
    requires
        sound_env(env),
        sorted_map::sorted(deposits),
        multi_asset::open_result(env, deposits) is Ok,
        multi_asset::opened_count(env) < u64::MAX,
        all_possible(
            multi_asset::opened(
                env,
                sender,
                receiver,
                sender_pubkey,
                deposits,
                challenge_period,
            ),
            calls,
        ),
    ensures
        ({
            let id = multi_asset::next_id(env);
            let opened = multi_asset::opened(
                env,
                sender,
                receiver,
                sender_pubkey,
                deposits,
                challenge_period,
            );
            let channel = after_calls(opened, calls).channels[id];
            &&& after_calls(opened, calls).channels.contains_key(id)
            &&& channel.sender == sender
            &&& channel.receiver == receiver
            &&& channel.sender_pubkey == sender_pubkey
            &&& channel.challenge_period == challenge_period
            &&& channel.opened_at == env.sequence
            &&& channel.assets.len() == deposits.len()
            &&& forall|i: int|
                0 <= i < deposits.len() ==> (#[trigger] channel.assets[i]).0 == deposits[i].0
                    && channel.assets[i].1.deposit == deposits[i].1
        }),
{
    let id = multi_asset::next_id(env);
    let opened = multi_asset::opened(
        env,
        sender,
        receiver,
        sender_pubkey,
        deposits,
        challenge_period,
    );
    law_open_sound(env, sender, receiver, sender_pubkey, deposits, challenge_period);
    law_any_history(opened, calls);
    let made = opened.channels[id];
    let channel = after_calls(opened, calls).channels[id];
    assert(opened.channels.contains_key(id));
    assert forall|i: int| 0 <= i < deposits.len() implies (#[trigger] channel.assets[i]).0
        == deposits[i].0 && channel.assets[i].1.deposit == deposits[i].1 by {
        assert(made.assets[i].0 == channel.assets[i].0);
    }
}

} // verus!
