//! Multi-asset collateral pooling for state channels.
//!
//! A multi-asset channel escrows several tokens in one channel session. Each
//! token is tracked by its own [`BalanceRecord`] and every signed state commits
//! to one receiver balance *per asset*, so:
//!
//! - **Per-asset conservation.** For every asset, the receiver balance stays
//!   within `0..=deposit`; at settlement the receiver is paid that balance
//!   and the sender is refunded `deposit - balance` of the *same* token.
//!   Value never moves between assets.
//! - **No commingling or substitution.** A state must name exactly the
//!   channel's asset set, so a signature can never be reinterpreted against a
//!   different currency.
//! - **Atomic settlement.** One `settle` call pays out every asset.
//!
//! Lifecycle: `open`, then any number of `update`s, then `close` (starts the
//! challenge window, during which a newer signed state may still be submitted
//! with `update`), then `settle` once the window elapses. An open channel past
//! the maximum lifetime may also be settled directly per its latest state.
//!
//! A call works on a [`ChannelEnv`]: what the contract finds in its storage and
//! on the ledger. What the ledger has to do on its account is appended to
//! [`ChannelEnv::effects`], in order; a refused call changes nothing.

use vstd::prelude::*;

use crate::address::Address;
use crate::auth::{has_authorized, require_auth};
use crate::bytes;
use crate::bytes::u64_to_be;
use crate::crypto;
use crate::crypto::ed25519_verify;
use crate::dispute;
use crate::dispute::{ensure_window_elapsed, ensure_window_open};
use crate::error::Error;
use crate::sorted_map;
use crate::sorted_map::{Key, SortedMap};
use crate::token::Transfer;
use crate::xdr;
use crate::xdr::{address_to_xdr, balances_to_xdr};

verus! {

/// Maximum number of distinct assets pooled in one channel.
pub const MAX_ASSETS: u32 = 10;

/// The bytes of `accensa-ma-channel-v1`, which every signed payload starts with.
pub const PAYLOAD_DOMAIN: [u8; 21] = [
    97, 99, 99, 101, 110, 115, 97, 45, 109, 97, 45, 99, 104, 97, 110, 110, 101, 108, 45, 118, 49,
];

/// What a channel can still do.
#[derive(Clone, Copy, Debug, PartialEq, Eq, Structural)]
pub enum ChannelPhase {
    Open,
    Closed,
    Finalized,
}

/// Per-asset escrow and entitlement.
#[derive(Clone, Copy, Debug, PartialEq, Eq, Structural)]
pub struct BalanceRecord {
    /// Amount of this token escrowed by the sender.
    pub deposit: i128,
    /// Amount of this token the receiver is entitled to as of the latest
    /// state.
    pub receiver_balance: i128,
}

/// A channel escrowing several tokens.
#[derive(Clone, Debug, PartialEq, Eq)]
pub struct MultiAssetChannel {
    pub sender: Address,
    pub receiver: Address,
    /// Ed25519 public key used to verify off-chain state signatures.
    pub sender_pubkey: [u8; 32],
    /// Token address → escrow/entitlement for that token.
    pub assets: SortedMap<Address, BalanceRecord>,
    /// Latest accepted state nonce.
    pub nonce: u64,
    pub phase: ChannelPhase,
    pub opened_at: u32,
    /// Ledger at which the channel was closed (or last challenged); `0` while
    /// open.
    pub closed_at: u32,
    pub challenge_period: u32,
}

/// What a [`MultiAssetChannel`] says.
#[verifier::ext_equal]
pub struct ChannelView {
    pub sender: Address,
    pub receiver: Address,
    pub sender_pubkey: Seq<u8>,
    pub assets: Seq<(Address, BalanceRecord)>,
    pub nonce: u64,
    pub phase: ChannelPhase,
    pub opened_at: u32,
    pub closed_at: u32,
    pub challenge_period: u32,
}

impl View for MultiAssetChannel {
    type V = ChannelView;

    open spec fn view(&self) -> ChannelView {
        ChannelView {
            sender: self.sender,
            receiver: self.receiver,
            sender_pubkey: self.sender_pubkey@,
            assets: self.assets@,
            nonce: self.nonce,
            phase: self.phase,
            opened_at: self.opened_at,
            closed_at: self.closed_at,
            challenge_period: self.challenge_period,
        }
    }
}

/// A signed multi-asset state: the receiver's balance in every asset.
#[derive(Clone, Debug, PartialEq, Eq)]
pub struct MultiAssetState {
    pub nonce: u64,
    pub balances: SortedMap<Address, i128>,
}

/// What a [`MultiAssetState`] says.
#[verifier::ext_equal]
pub struct StateView {
    pub nonce: u64,
    pub balances: Seq<(Address, i128)>,
}

impl View for MultiAssetState {
    type V = StateView;

    open spec fn view(&self) -> StateView {
        StateView { nonce: self.nonce, balances: self.balances@ }
    }
}

impl MultiAssetState {
    /// The balances are in the order of the assets, and no more than an
    /// encoded map can hold.
    pub open spec fn wf(self) -> bool {
        &&& self.balances.wf()
        &&& self.balances@.len() <= u32::MAX
    }
}

#[derive(Clone, Debug, PartialEq, Eq)]
pub struct MultiAssetChannelOpenedEvent {
    pub channel_id: u64,
    pub sender: Address,
    pub receiver: Address,
    pub deposits: SortedMap<Address, i128>,
    pub challenge_period: u32,
}

#[derive(Clone, Debug, PartialEq, Eq)]
pub struct MultiAssetStateUpdatedEvent {
    pub channel_id: u64,
    pub nonce: u64,
    pub balances: SortedMap<Address, i128>,
    pub phase: ChannelPhase,
}

#[derive(Clone, Debug, PartialEq, Eq)]
pub struct MultiAssetSettledEvent {
    pub channel_id: u64,
    /// Per-asset amount paid to the receiver.
    pub receiver_payouts: SortedMap<Address, i128>,
    /// Per-asset remainder refunded to the sender.
    pub sender_refunds: SortedMap<Address, i128>,
}

/// Under what the contract's storage keeps a value.
#[derive(Clone, Copy, Debug, PartialEq, Eq)]
pub enum DataKey {
    Token,
    ChannelCount,
    MaxChannelLifetime,
    MultiAssetChannel(u64),
}

/// Something that the ledger has to do on the contract's account.
#[derive(Clone, Debug, PartialEq, Eq)]
pub enum Effect {
    /// Write the value that now stands under the key.
    Write(DataKey),
    /// Extend the lifetime of the persistent entry under the key.
    ExtendTtl(DataKey),
    /// Extend the lifetime of the contract instance.
    ExtendInstanceTtl,
    /// Ask a token contract for a transfer.
    Transfer(Transfer),
    /// Publish an event.
    Opened(MultiAssetChannelOpenedEvent),
    Updated(MultiAssetStateUpdatedEvent),
    Settled(MultiAssetSettledEvent),
}

/// What an [`Effect`] says.
#[verifier::ext_equal]
pub enum EffectView {
    Write(DataKey),
    ExtendTtl(DataKey),
    ExtendInstanceTtl,
    Transfer(Transfer),
    Opened {
        channel_id: u64,
        sender: Address,
        receiver: Address,
        deposits: Seq<(Address, i128)>,
        challenge_period: u32,
    },
    Updated { channel_id: u64, nonce: u64, balances: Seq<(Address, i128)>, phase: ChannelPhase },
    Settled {
        channel_id: u64,
        receiver_payouts: Seq<(Address, i128)>,
        sender_refunds: Seq<(Address, i128)>,
    },
}

impl View for Effect {
    type V = EffectView;

    open spec fn view(&self) -> EffectView {
        match self {
            Effect::Write(key) => EffectView::Write(*key),
            Effect::ExtendTtl(key) => EffectView::ExtendTtl(*key),
            Effect::ExtendInstanceTtl => EffectView::ExtendInstanceTtl,
            Effect::Transfer(transfer) => EffectView::Transfer(*transfer),
            Effect::Opened(event) => EffectView::Opened {
                channel_id: event.channel_id,
                sender: event.sender,
                receiver: event.receiver,
                deposits: event.deposits@,
                challenge_period: event.challenge_period,
            },
            Effect::Updated(event) => EffectView::Updated {
                channel_id: event.channel_id,
                nonce: event.nonce,
                balances: event.balances@,
                phase: event.phase,
            },
            Effect::Settled(event) => EffectView::Settled {
                channel_id: event.channel_id,
                receiver_payouts: event.receiver_payouts@,
                sender_refunds: event.sender_refunds@,
            },
        }
    }
}

/// What a call finds around the contract.
#[derive(Clone, Debug, PartialEq, Eq)]
pub struct ChannelEnv {
    /// The contract's own address.
    pub contract: Address,
    /// The sequence number of the current ledger.
    pub sequence: u32,
    /// The addresses that authorized the call.
    pub auths: Vec<Address>,
    /// The default token, once the contract is initialized.
    pub token: Option<Address>,
    /// The number of channels opened so far, of every kind.
    pub channel_count: Option<u64>,
    /// The configured maximum lifetime of a channel, in ledgers.
    pub max_channel_lifetime: Option<u32>,
    /// The maximum lifetime where none is configured.
    pub default_max_channel_lifetime: u32,
    /// The stored multi-asset channels.
    pub channels: SortedMap<u64, MultiAssetChannel>,
    /// What the ledger has to do, in order.
    pub effects: Vec<Effect>,
}

/// What a [`ChannelEnv`] says.
#[verifier::ext_equal]
pub struct ChannelEnvView {
    pub contract: Address,
    pub sequence: u32,
    pub auths: Seq<Address>,
    pub token: Option<Address>,
    pub channel_count: Option<u64>,
    pub max_channel_lifetime: Option<u32>,
    pub default_max_channel_lifetime: u32,
    pub channels: Map<u64, ChannelView>,
    pub effects: Seq<EffectView>,
}

impl View for ChannelEnv {
    type V = ChannelEnvView;

    open spec fn view(&self) -> ChannelEnvView {
        ChannelEnvView {
            contract: self.contract,
            sequence: self.sequence,
            auths: self.auths@,
            token: self.token,
            channel_count: self.channel_count,
            max_channel_lifetime: self.max_channel_lifetime,
            default_max_channel_lifetime: self.default_max_channel_lifetime,
            channels: self.channels.to_map().map_values(|channel: MultiAssetChannel| channel@),
            effects: self.effects@.map_values(|effect: Effect| effect@),
        }
    }
}

impl ChannelEnv {
    /// The channels, and the assets of each, are in order.
    pub open spec fn wf(self) -> bool {
        &&& self.channels.wf()
        &&& forall|channel_id: u64| #[trigger]
            self.channels.to_map().contains_key(channel_id)
                ==> self.channels.to_map()[channel_id].assets.wf()
    }
}

impl MultiAssetChannel {
    /// A channel that says the same.
    fn duplicate(&self) -> (channel: MultiAssetChannel)
        ensures
            channel@ == self@,
    {
        MultiAssetChannel {
            sender: self.sender,
            receiver: self.receiver,
            sender_pubkey: self.sender_pubkey,
            assets: self.assets.duplicate(),
            nonce: self.nonce,
            phase: self.phase,
            opened_at: self.opened_at,
            closed_at: self.closed_at,
            challenge_period: self.challenge_period,
        }
    }
}

/// The bytes that the sender signs for `state` on `channel_id`.
pub open spec fn payload(contract: Address, channel_id: u64, state: StateView) -> Seq<u8> {
    PAYLOAD_DOMAIN@ + xdr::xdr_address(contract) + bytes::be_bytes(channel_id as nat, 8)
        + bytes::be_bytes(state.nonce as nat, 8) + xdr::xdr_balances(state.balances)
}

/// Canonical bytes the sender signs for `state` on `channel_id`.
pub fn state_payload(contract: &Address, channel_id: u64, state: &MultiAssetState) -> (buf: Vec<u8>)
    requires
        state.wf(),
    ensures
        buf@ == payload(*contract, channel_id, state@),
{
    let domain: [u8; 21] = PAYLOAD_DOMAIN;
    let mut buf: Vec<u8> = Vec::new();
    let mut i: usize = 0;
    while i < 21
        invariant
            i <= 21,
            buf@ == domain@.take(i as int),
        decreases 21 - i,
    {
        buf.push(domain[i]);
        i += 1;
    }
    assert(buf@ =~= PAYLOAD_DOMAIN@);
    let mut address = address_to_xdr(contract);
    buf.append(&mut address);
    let mut id = u64_to_be(channel_id);
    buf.append(&mut id);
    let mut nonce = u64_to_be(state.nonce);
    buf.append(&mut nonce);
    let mut balances = balances_to_xdr(state.balances.entries());
    buf.append(&mut balances);
    buf
}

/// The first entry of a state that its channel refuses decides: an asset that
/// the channel does not hold, or a balance outside of the asset's deposit.
pub open spec fn balance_fault(
    assets: Seq<(Address, BalanceRecord)>,
    balances: Seq<(Address, i128)>,
    from: int,
) -> Option<Error>
    decreases balances.len() - from,
{
    if from >= balances.len() {
        None
    } else {
        let (asset, balance) = balances[from];
        match sorted_map::lookup(assets, asset) {
            None => Some(Error::UnsupportedAsset),
            Some(record) => if balance < 0 || balance > record.deposit {
                Some(Error::ExceedsPayment)
            } else {
                balance_fault(assets, balances, from + 1)
            },
        }
    }
}

/// `channel` once `state` is accepted.
pub open spec fn applied(channel: ChannelView, state: StateView) -> ChannelView {
    ChannelView {
        assets: Seq::new(
            channel.assets.len(),
            |i: int|
                (
                    channel.assets[i].0,
                    BalanceRecord {
                        deposit: channel.assets[i].1.deposit,
                        receiver_balance: state.balances[i].1,
                    },
                ),
        ),
        nonce: state.nonce,
        ..channel
    }
}

/// What becomes of a correctly signed `state`.
pub open spec fn apply_result(
    channel: ChannelView,
    state: StateView,
    require_newer: bool,
) -> Result<ChannelView, Error> {
    if require_newer && state.nonce <= channel.nonce {
        Err(Error::StaleState)
    } else if state.balances.len() != channel.assets.len() {
        Err(Error::UnsupportedAsset)
    } else {
        match balance_fault(channel.assets, state.balances, 0) {
            Some(error) => Err(error),
            None => Ok(applied(channel, state)),
        }
    }
}

/// Freshness, exact asset set and per-asset bounds of a state whose signature
/// is known to be good. Returns the channel with the new balances applied.
pub fn apply_verified_state(
    channel: MultiAssetChannel,
    state: &MultiAssetState,
    require_newer: bool,
) -> (outcome: Result<MultiAssetChannel, Error>)
    requires
        channel.assets.wf(),
        state.wf(),
    ensures
        match outcome {
            Ok(applied) => apply_result(channel@, state@, require_newer) == Ok::<
                ChannelView,
                Error,
            >(applied@) && applied.assets.wf(),
            Err(error) => apply_result(channel@, state@, require_newer) == Err::<
                ChannelView,
                Error,
            >(error),
        },
{
    if require_newer && state.nonce <= channel.nonce {
        return Err(Error::StaleState);
    }
    // Exact asset-set match: same size, and every asset in the state is
    // one of the channel's. Together these rule out substitution and
    // omission.

    if state.balances.len() != channel.assets.len() {
        return Err(Error::UnsupportedAsset);
    }
    let mut channel = channel;
    let ghost before = channel@;
    let ghost held = channel.assets@;
    let ghost named = state.balances@;
    let mut i: usize = 0;
    #[verifier::loop_isolation(false)]
    while i < state.balances.len()
        invariant
            i <= named.len(),
            channel.assets.wf(),
            channel.assets@.len() == held.len(),
            channel@ == (ChannelView { assets: channel.assets@, ..before }),
            sorted_map::keys(channel.assets@) == sorted_map::keys(held),
            forall|j: int|
                0 <= j < held.len() ==> (#[trigger] channel.assets@[j]).1.deposit
                    == held[j].1.deposit,
            forall|j: int|
                0 <= j < i ==> sorted_map::has_key(held, (#[trigger] named[j]).0)
                    && sorted_map::lookup(channel.assets@, named[j].0)->0.receiver_balance
                    == named[j].1,
            balance_fault(held, named, 0) == balance_fault(held, named, i as int),
        decreases named.len() - i,
    {
        let (asset, balance) = *state.balances.entry(i);
        let ghost current = channel.assets@;
        proof {
            lemma_same_keys_same_lookups(held, current, asset);
        }
        let deposit = match channel.assets.get(&asset) {
            None => {
                return Err(Error::UnsupportedAsset);
            },
            Some(record) => record.deposit,
        };
        if balance < 0 || balance > deposit {
            return Err(Error::ExceedsPayment);
        }
        channel.assets.set(asset, BalanceRecord { deposit, receiver_balance: balance });
        proof {
            let record = BalanceRecord { deposit, receiver_balance: balance };
            let at = choose|j: int| sorted_map::entry_at(current, asset, j);
            assert(sorted_map::entry_at(current, asset, at));
            assert(channel.assets@ == current.update(at, (asset, record)));
            sorted_map::lemma_lookup_at(current, at);
            sorted_map::lemma_lookup_at(channel.assets@, at);
            assert forall|j: int| 0 <= j < i + 1 implies sorted_map::has_key(
                held,
                (#[trigger] named[j]).0,
            ) && sorted_map::lookup(channel.assets@, named[j].0)->0.receiver_balance
                == named[j].1 by {
                if j < i {
                    assert(named[j].0.before(named[i as int].0));
                    Address::irreflexive(named[j].0);
                    lemma_same_keys_same_lookups(held, current, named[j].0);
                    let p = choose|p: int| sorted_map::entry_at(current, named[j].0, p);
                    assert(sorted_map::entry_at(current, named[j].0, p));
                    sorted_map::lemma_lookup_at(current, p);
                    sorted_map::lemma_lookup_at(channel.assets@, p);
                }
            }
        }
        i += 1;
    }
    proof {
        sorted_map::lemma_same_keys(named, held);
        assert forall|j: int| 0 <= j < held.len() implies channel.assets@[j] == applied(
            before,
            state@,
        ).assets[j] by {
            assert(sorted_map::keys(named)[j] == named[j].0);
            assert(sorted_map::keys(held)[j] == held[j].0);
            assert(sorted_map::keys(channel.assets@)[j] == channel.assets@[j].0);
            sorted_map::lemma_lookup_at(channel.assets@, j);
        }
        assert(channel.assets@.len() == sorted_map::keys(channel.assets@).len());
        assert(held.len() == sorted_map::keys(held).len());
        assert(channel.assets@ =~= applied(before, state@).assets);
    }
    channel.nonce = state.nonce;
    Ok(channel)
}

/// Records under the same keys are found under the same keys.
proof fn lemma_same_keys_same_lookups(
    a: Seq<(Address, BalanceRecord)>,
    b: Seq<(Address, BalanceRecord)>,
    key: Address,
)
    requires
        sorted_map::sorted(a),
        sorted_map::sorted(b),
        sorted_map::keys(a) == sorted_map::keys(b),
        forall|j: int| 0 <= j < a.len() ==> (#[trigger] b[j]).1.deposit == a[j].1.deposit,
    ensures
        sorted_map::has_key(a, key) == sorted_map::has_key(b, key),
        sorted_map::has_key(a, key) ==> sorted_map::lookup(a, key)->0.deposit
            == sorted_map::lookup(b, key)->0.deposit,
{
    assert(a.len() == sorted_map::keys(a).len());
    assert(b.len() == sorted_map::keys(b).len());
    assert forall|j: int| 0 <= j < a.len() implies a[j].0 == b[j].0 by {
        assert(sorted_map::keys(a)[j] == a[j].0);
        assert(sorted_map::keys(b)[j] == b[j].0);
    }
    if sorted_map::has_key(a, key) {
        let j = choose|j: int| sorted_map::entry_at(a, key, j);
        assert(sorted_map::entry_at(b, key, j));
        sorted_map::lemma_lookup_at(a, j);
        sorted_map::lemma_lookup_at(b, j);
    }
    if sorted_map::has_key(b, key) {
        let j = choose|j: int| sorted_map::entry_at(b, key, j);
        assert(sorted_map::entry_at(a, key, j));
    }
}

/// The storage key of a channel.
pub fn key(channel_id: u64) -> (key: DataKey)
    ensures
        key == DataKey::MultiAssetChannel(channel_id),
{
    DataKey::MultiAssetChannel(channel_id)
}

/// Reads a stored channel.
pub fn load(env: &ChannelEnv, channel_id: u64) -> (loaded: Result<MultiAssetChannel, Error>)
    requires
        env.wf(),
    ensures
        match loaded {
            Ok(channel) => env@.channels.contains_key(channel_id) && channel@
                == env@.channels[channel_id] && channel.assets.wf(),
            Err(error) => !env@.channels.contains_key(channel_id) && error
                == Error::ChannelNotFound,
        },
{
    match env.channels.get(&channel_id) {
        Some(channel) => {
            assert(env.channels.to_map().contains_key(channel_id));
            Ok(channel.duplicate())
        },
        None => Err(Error::ChannelNotFound),
    }
}

/// `env` once `channel` is stored under `channel_id`.
pub open spec fn stored(
    env: ChannelEnvView,
    channel_id: u64,
    channel: ChannelView,
) -> ChannelEnvView {
    ChannelEnvView {
        channels: env.channels.insert(channel_id, channel),
        effects: env.effects + seq![
            EffectView::Write(DataKey::MultiAssetChannel(channel_id)),
            EffectView::ExtendTtl(DataKey::MultiAssetChannel(channel_id)),
        ],
        ..env
    }
}

/// Writes a channel and extends the lifetime of its entry.
pub fn store(env: &mut ChannelEnv, channel_id: u64, channel: MultiAssetChannel)
    requires
        old(env).wf(),
        channel.assets.wf(),
    ensures
        final(env).wf(),
        final(env)@ == stored(old(env)@, channel_id, channel@),
{
    let ghost before = env@;
    let ghost map = env.channels.to_map();
    env.channels.set(channel_id, channel);
    env.effects.push(Effect::Write(key(channel_id)));
    env.effects.push(Effect::ExtendTtl(key(channel_id)));
    proof {
        assert(env@.channels =~= before.channels.insert(channel_id, channel@));
        assert(env@.effects =~= stored(before, channel_id, channel@).effects);
    }
}

/// The maximum lifetime of a channel.
pub open spec fn lifetime(env: ChannelEnvView) -> u32 {
    match env.max_channel_lifetime {
        Some(lifetime) => lifetime,
        None => env.default_max_channel_lifetime,
    }
}

pub fn max_lifetime(env: &ChannelEnv) -> (lifetime: u32)
    ensures
        lifetime == self::lifetime(env@),
{
    match env.max_channel_lifetime {
        Some(lifetime) => lifetime,
        None => env.default_max_channel_lifetime,
    }
}

/// The channel has outlived the maximum lifetime.
pub open spec fn expired(env: ChannelEnvView, channel: ChannelView) -> bool {
    env.sequence > channel.opened_at.saturating_add(lifetime(env))
}

pub fn is_expired(env: &ChannelEnv, channel: &MultiAssetChannel) -> (past: bool)
    ensures
        past == expired(env@, channel@),
{
    env.sequence > channel.opened_at.saturating_add(max_lifetime(env))
}

/// Why `open` is refused before the sender's authorization is asked for.
pub open spec fn open_precluded(env: ChannelEnvView, deposits: Seq<(Address, i128)>) -> Option<
    Error,
> {
    if env.token is None {
        Some(Error::NotInitialized)
    } else if deposits.len() == 0 {
        Some(Error::InvalidAmount)
    } else if deposits.len() > MAX_ASSETS {
        Some(Error::BatchTooLarge)
    } else {
        None
    }
}

/// What `open` returns.
pub open spec fn open_result(env: ChannelEnvView, deposits: Seq<(Address, i128)>) -> Result<
    u64,
    Error,
> {
    match open_precluded(env, deposits) {
        Some(error) => Err(error),
        None => if exists|i: int| 0 <= i < deposits.len() && (#[trigger] deposits[i]).1 <= 0 {
            Err(Error::InvalidAmount)
        } else {
            Ok(next_id(env))
        },
    }
}

/// The number of channels opened so far.
pub open spec fn opened_count(env: ChannelEnvView) -> u64 {
    match env.channel_count {
        Some(count) => count,
        None => 0,
    }
}

/// The id of the next channel, of whatever kind.
pub open spec fn next_id(env: ChannelEnvView) -> u64 {
    (opened_count(env) + 1) as u64
}

/// The channel that `open` makes.
pub open spec fn opened_channel(
    env: ChannelEnvView,
    sender: Address,
    receiver: Address,
    sender_pubkey: Seq<u8>,
    deposits: Seq<(Address, i128)>,
    challenge_period: u32,
) -> ChannelView {
    ChannelView {
        sender,
        receiver,
        sender_pubkey,
        assets: deposits.map_values(
            |entry: (Address, i128)|
                (entry.0, BalanceRecord { deposit: entry.1, receiver_balance: 0 }),
        ),
        nonce: 0,
        phase: ChannelPhase::Open,
        opened_at: env.sequence,
        closed_at: 0,
        challenge_period,
    }
}

/// The transfers by which the sender escrows `deposits`.
pub open spec fn escrow_transfers(
    contract: Address,
    sender: Address,
    deposits: Seq<(Address, i128)>,
) -> Seq<EffectView> {
    deposits.map_values(
        |entry: (Address, i128)|
            EffectView::Transfer(
                Transfer { token: entry.0, from: sender, to: contract, amount: entry.1 },
            ),
    )
}

/// `env` after a successful `open`.
pub open spec fn opened(
    env: ChannelEnvView,
    sender: Address,
    receiver: Address,
    sender_pubkey: Seq<u8>,
    deposits: Seq<(Address, i128)>,
    challenge_period: u32,
) -> ChannelEnvView {
    let channel_id = next_id(env);
    let counted = ChannelEnvView {
        channel_count: Some(channel_id),
        effects: env.effects + escrow_transfers(env.contract, sender, deposits) + seq![
            EffectView::Write(DataKey::ChannelCount),
            EffectView::ExtendInstanceTtl,
        ],
        ..env
    };
    let channel = opened_channel(env, sender, receiver, sender_pubkey, deposits, challenge_period);
    let kept = stored(counted, channel_id, channel);
    ChannelEnvView {
        effects: kept.effects.push(
            EffectView::Opened { channel_id, sender, receiver, deposits, challenge_period },
        ),
        ..kept
    }
}

/// The checks that `open` makes before it asks for the sender's authorization.
pub fn check_open(env: &ChannelEnv, deposits: &SortedMap<Address, i128>) -> (checked: Result<
    (),
    Error,
>)
    ensures
        checked == match open_precluded(env@, deposits@) {
            Some(error) => Err::<(), Error>(error),
            None => Ok(()),
        },
{
    if env.token.is_none() {
        return Err(Error::NotInitialized);
    }
    if deposits.len() == 0 {
        return Err(Error::InvalidAmount);
    }
    if deposits.len() > MAX_ASSETS as usize {
        return Err(Error::BatchTooLarge);
    }
    Ok(())
}

/// The sender authorized the call, and an id is left for the channel, where it
/// comes to that.
pub open spec fn open_admitted(
    env: ChannelEnvView,
    sender: Address,
    deposits: Seq<(Address, i128)>,
) -> bool {
    &&& open_precluded(env, deposits) is None ==> env.auths.contains(sender)
    &&& open_result(env, deposits) is Ok ==> opened_count(env) < u64::MAX
}

/// Opens a channel in which `sender` escrows `deposits`. Returns its id.
///
/// `challenge_period` is the period in effect for the channel. The call traps
/// unless the sender authorized it, and where no id is left; [`try_open`] is for
/// calls of which that is not known.
pub fn open(
    env: &mut ChannelEnv,
    sender: Address,
    receiver: Address,
    sender_pubkey: [u8; 32],
    deposits: SortedMap<Address, i128>,
    challenge_period: u32,
) -> (outcome: Result<u64, Error>)
    requires
        old(env).wf(),
        deposits.wf(),
        open_admitted(old(env)@, sender, deposits@),
    ensures
        final(env).wf(),
        outcome == open_result(old(env)@, deposits@),
        outcome is Ok ==> final(env)@ == opened(
            old(env)@,
            sender,
            receiver,
            sender_pubkey@,
            deposits@,
            challenge_period,
        ),
        outcome is Err ==> *final(env) == *old(env),
{
    match check_open(env, &deposits) {
        Err(error) => {
            return Err(error);
        },
        Ok(()) => {},
    }
    require_auth(&env.auths, &sender);
    let contract = env.contract;
    let mut assets: SortedMap<Address, BalanceRecord> = SortedMap::new();
    let mut escrow: Vec<Effect> = Vec::new();
    let ghost made = opened_channel(
        env@,
        sender,
        receiver,
        sender_pubkey@,
        deposits@,
        challenge_period,
    );
    let mut i: usize = 0;
    #[verifier::loop_isolation(false)]
    while i < deposits.len()
        invariant
            i <= deposits@.len(),
            forall|j: int| 0 <= j < i ==> (#[trigger] deposits@[j]).1 > 0,
            assets.wf(),
            assets@ == made.assets.take(i as int),
            escrow@.map_values(|effect: Effect| effect@) == escrow_transfers(
                contract,
                sender,
                deposits@,
            ).take(i as int),
        decreases deposits@.len() - i,
    {
        let (asset, amount) = *deposits.entry(i);
        if amount <= 0 {
            return Err(Error::InvalidAmount);
        }
        escrow.push(
            Effect::Transfer(Transfer { token: asset, from: sender, to: contract, amount }),
        );
        assert forall|j: int| 0 <= j < assets@.len() implies (#[trigger] assets@[j]).0.before(
            asset,
        ) by {
            assert(deposits@[j].0.before(deposits@[i as int].0));
        }
        assets.set(asset, BalanceRecord { deposit: amount, receiver_balance: 0 });
        assert(assets@ =~= made.assets.take(i + 1));
        assert(escrow@.map_values(|effect: Effect| effect@) =~= escrow_transfers(
            contract,
            sender,
            deposits@,
        ).take(i + 1));
        i += 1;
    }
    assert(assets@ =~= made.assets);
    let ghost before = env@;
    let ghost listed = escrow@.map_values(|effect: Effect| effect@);
    assert(listed =~= escrow_transfers(contract, sender, deposits@));

    env.effects.append(&mut escrow);
    assert(env@.effects =~= before.effects + listed);
    let channel_id: u64 = match env.channel_count {
        Some(count) => count + 1,
        None => 1,
    };
    env.channel_count = Some(channel_id);
    env.effects.push(Effect::Write(DataKey::ChannelCount));
    env.effects.push(Effect::ExtendInstanceTtl);
    proof {
        assert(env@.effects =~= before.effects + escrow_transfers(contract, sender, deposits@)
            + seq![EffectView::Write(DataKey::ChannelCount), EffectView::ExtendInstanceTtl]);
    }

    let channel = MultiAssetChannel {
        sender,
        receiver,
        sender_pubkey,
        assets,
        nonce: 0,
        phase: ChannelPhase::Open,
        opened_at: env.sequence,
        closed_at: 0,
        challenge_period,
    };
    store(env, channel_id, channel);
    let ghost kept = env@;

    env.effects.push(
        Effect::Opened(
            MultiAssetChannelOpenedEvent {
                channel_id,
                sender,
                receiver,
                deposits,
                challenge_period,
            },
        ),
    );
    proof {
        let goal = opened(before, sender, receiver, sender_pubkey@, deposits@, challenge_period);
        assert(env@.effects =~= goal.effects);
        assert(env@ =~= goal);
    }
    Ok(channel_id)
}

/// Whether every deposit is positive.
fn all_positive(deposits: &SortedMap<Address, i128>) -> (positive: bool)
    ensures
        positive == !(exists|i: int|
            0 <= i < deposits@.len() && (#[trigger] deposits@[i]).1 <= 0),
{
    let mut i: usize = 0;
    while i < deposits.len()
        invariant
            i <= deposits@.len(),
            forall|j: int| 0 <= j < i ==> (#[trigger] deposits@[j]).1 > 0,
        decreases deposits@.len() - i,
    {
        if deposits.entry(i).1 <= 0 {
            assert(deposits@[i as int].1 <= 0);
            return false;
        }
        i += 1;
    }
    true
}

/// [`open`] for any call: `None` is the trap that a call runs into that the
/// sender did not authorize, or for which no id is left.
pub fn try_open(
    env: &mut ChannelEnv,
    sender: Address,
    receiver: Address,
    sender_pubkey: [u8; 32],
    deposits: SortedMap<Address, i128>,
    challenge_period: u32,
) -> (outcome: Option<Result<u64, Error>>)
    requires
        old(env).wf(),
        deposits.wf(),
    ensures
        final(env).wf(),
        outcome == if open_admitted(old(env)@, sender, deposits@) {
            Some(open_result(old(env)@, deposits@))
        } else {
            None::<Result<u64, Error>>
        },
        outcome is Some && outcome->0 is Ok ==> final(env)@ == opened(
            old(env)@,
            sender,
            receiver,
            sender_pubkey@,
            deposits@,
            challenge_period,
        ),
        !(outcome is Some && outcome->0 is Ok) ==> *final(env) == *old(env),
{
    match check_open(env, &deposits) {
        Ok(()) => {
            if !has_authorized(&env.auths, &sender) {
                return None;
            }
            let full = match env.channel_count {
                Some(count) => count == u64::MAX,
                None => false,
            };
            if full && all_positive(&deposits) {
                return None;
            }
        },
        Err(_) => {},
    }
    Some(open(env, sender, receiver, sender_pubkey, deposits, challenge_period))
}

/// `signature` is the sender's, for `state` on channel `channel_id`.
pub open spec fn signed(
    contract: Address,
    channel_id: u64,
    channel: ChannelView,
    state: StateView,
    signature: Seq<u8>,
) -> bool {
    crypto::ed25519_valid(channel.sender_pubkey, payload(contract, channel_id, state), signature)
}

/// Whether `signature` is the sender's, for `state` on channel `channel_id`.
pub fn verify_state(
    contract: &Address,
    channel_id: u64,
    channel: &MultiAssetChannel,
    state: &MultiAssetState,
    signature: &[u8; 64],
) -> (valid: bool)
    requires
        state.wf(),
    ensures
        valid == signed(*contract, channel_id, channel@, state@, signature@),
{
    let payload = state_payload(contract, channel_id, state);
    ed25519_verify(&channel.sender_pubkey, payload.as_slice(), signature)
}

/// Verify `state` against `channel`: signature, freshness, exact asset set
/// and per-asset bounds. Returns the channel with the new balances applied.
///
/// The call traps on a signature that does not verify.
pub fn apply_state(
    contract: &Address,
    channel_id: u64,
    channel: MultiAssetChannel,
    state: &MultiAssetState,
    signature: &[u8; 64],
    require_newer: bool,
) -> (outcome: Result<MultiAssetChannel, Error>)
    requires
        channel.assets.wf(),
        state.wf(),
        signed(*contract, channel_id, channel@, state@, signature@),
    ensures
        match outcome {
            Ok(applied) => apply_result(channel@, state@, require_newer) == Ok::<
                ChannelView,
                Error,
            >(applied@) && applied.assets.wf(),
            Err(error) => apply_result(channel@, state@, require_newer) == Err::<
                ChannelView,
                Error,
            >(error),
        },
{
    if !verify_state(contract, channel_id, &channel, state, signature) {
        return vstd::pervasive::unreached();
    }
    apply_verified_state(channel, state, require_newer)
}

/// Why `update` is refused before the signature is looked at.
pub open spec fn update_precluded(env: ChannelEnvView, channel_id: u64) -> Option<Error> {
    if !env.channels.contains_key(channel_id) {
        Some(Error::ChannelNotFound)
    } else {
        let channel = env.channels[channel_id];
        match channel.phase {
            ChannelPhase::Open => None,
            ChannelPhase::Closed => if dispute::window_runs(
                env.sequence,
                channel.closed_at,
                channel.challenge_period,
            ) {
                None
            } else {
                Some(Error::ChallengeExpired)
            },
            ChannelPhase::Finalized => Some(Error::ChannelNotOpen),
        }
    }
}

/// What `update` returns for a correctly signed `state`.
pub open spec fn update_result(
    env: ChannelEnvView,
    channel_id: u64,
    state: StateView,
) -> Result<(), Error> {
    match update_precluded(env, channel_id) {
        Some(error) => Err(error),
        None => match apply_result(env.channels[channel_id], state, true) {
            Ok(_) => Ok(()),
            Err(error) => Err(error),
        },
    }
}

/// `env` after `channel` was stored and `state` announced as its latest.
pub open spec fn announced(
    env: ChannelEnvView,
    channel_id: u64,
    channel: ChannelView,
    state: StateView,
) -> ChannelEnvView {
    let kept = stored(env, channel_id, channel);
    ChannelEnvView {
        effects: kept.effects.push(
            EffectView::Updated {
                channel_id,
                nonce: state.nonce,
                balances: state.balances,
                phase: channel.phase,
            },
        ),
        ..kept
    }
}

/// `env` after a successful `update`: a challenge re-arms the window.
pub open spec fn updated(
    env: ChannelEnvView,
    channel_id: u64,
    state: StateView,
) -> ChannelEnvView {
    let next = applied(env.channels[channel_id], state);
    let rearmed = if next.phase == ChannelPhase::Closed {
        ChannelView { closed_at: env.sequence, ..next }
    } else {
        next
    };
    announced(env, channel_id, rearmed, state)
}

/// The checks that `update` makes before it looks at the signature.
fn check_update(env: &ChannelEnv, channel: &MultiAssetChannel) -> (checked: Result<(), Error>)
    ensures
        checked == match channel.phase {
            ChannelPhase::Open => Ok::<(), Error>(()),
            ChannelPhase::Closed => if dispute::window_runs(
                env.sequence,
                channel.closed_at,
                channel.challenge_period,
            ) {
                Ok(())
            } else {
                Err(Error::ChallengeExpired)
            },
            ChannelPhase::Finalized => Err(Error::ChannelNotOpen),
        },
{
    match channel.phase {
        ChannelPhase::Open => Ok(()),
        ChannelPhase::Closed => ensure_window_open(
            env.sequence,
            channel.closed_at,
            channel.challenge_period,
        ),
        ChannelPhase::Finalized => Err(Error::ChannelNotOpen),
    }
}

/// Stores `channel` and announces `state` as its latest.
fn announce(
    env: &mut ChannelEnv,
    channel_id: u64,
    channel: MultiAssetChannel,
    state: MultiAssetState,
)
    requires
        old(env).wf(),
        channel.assets.wf(),
    ensures
        final(env).wf(),
        final(env)@ == announced(old(env)@, channel_id, channel@, state@),
{
    let phase = channel.phase;
    let ghost goal = announced(env@, channel_id, channel@, state@);
    store(env, channel_id, channel);
    env.effects.push(
        Effect::Updated(
            MultiAssetStateUpdatedEvent {
                channel_id,
                nonce: state.nonce,
                balances: state.balances,
                phase,
            },
        ),
    );
    assert(env@.effects =~= goal.effects);
    assert(env@ =~= goal);
}

/// Submit a newer signed state. Valid while the channel is open, or while
/// it is closed and the challenge window is still running (which re-arms
/// the window).
///
/// The call traps on a signature that does not verify; [`try_update`] is for
/// signatures of which that is not known.
pub fn update(
    env: &mut ChannelEnv,
    channel_id: u64,
    state: MultiAssetState,
    signature: &[u8; 64],
) -> (outcome: Result<(), Error>)
    requires
        old(env).wf(),
        state.wf(),
        update_precluded(old(env)@, channel_id) is None ==> signed(
            old(env)@.contract,
            channel_id,
            old(env)@.channels[channel_id],
            state@,
            signature@,
        ),
    ensures
        final(env).wf(),
        outcome == update_result(old(env)@, channel_id, state@),
        outcome is Ok ==> final(env)@ == updated(old(env)@, channel_id, state@),
        outcome is Err ==> *final(env) == *old(env),
{
    let channel = match load(env, channel_id) {
        Err(error) => {
            return Err(error);
        },
        Ok(channel) => channel,
    };
    match check_update(env, &channel) {
        Err(error) => {
            return Err(error);
        },
        Ok(()) => {},
    }
    let mut channel = match apply_state(
        &env.contract,
        channel_id,
        channel,
        &state,
        signature,
        true,
    ) {
        Err(error) => {
            return Err(error);
        },
        Ok(channel) => channel,
    };
    if channel.phase == ChannelPhase::Closed {
        channel.closed_at = env.sequence;
    }
    announce(env, channel_id, channel, state);
    Ok(())
}

/// [`update`] for any signature: `None` is the trap that a signature runs into
/// that does not verify.
pub fn try_update(
    env: &mut ChannelEnv,
    channel_id: u64,
    state: MultiAssetState,
    signature: &[u8; 64],
) -> (outcome: Option<Result<(), Error>>)
    requires
        old(env).wf(),
        state.wf(),
    ensures
        final(env).wf(),
        outcome == if update_precluded(old(env)@, channel_id) is None && !signed(
            old(env)@.contract,
            channel_id,
            old(env)@.channels[channel_id],
            state@,
            signature@,
        ) {
            None::<Result<(), Error>>
        } else {
            Some(update_result(old(env)@, channel_id, state@))
        },
        outcome == Some(Ok::<(), Error>(())) ==> final(env)@ == updated(
            old(env)@,
            channel_id,
            state@,
        ),
        outcome != Some(Ok::<(), Error>(())) ==> *final(env) == *old(env),
{
    match load(env, channel_id) {
        Err(error) => {
            return Some(Err(error));
        },
        Ok(channel) => match check_update(env, &channel) {
            Err(error) => {
                return Some(Err(error));
            },
            Ok(()) => if !verify_state(&env.contract, channel_id, &channel, &state, signature) {
                return None;
            },
        },
    }
    Some(update(env, channel_id, state, signature))
}

/// Why `close` is refused before the signature is looked at.
pub open spec fn close_precluded(
    env: ChannelEnvView,
    channel_id: u64,
    state: StateView,
) -> Option<Error> {
    if !env.channels.contains_key(channel_id) {
        Some(Error::ChannelNotFound)
    } else if env.channels[channel_id].phase != ChannelPhase::Open {
        Some(Error::ChannelNotOpen)
    } else if expired(env, env.channels[channel_id]) {
        Some(Error::ChannelExpired)
    } else if state.nonce < env.channels[channel_id].nonce {
        Some(Error::StaleState)
    } else {
        None
    }
}

/// What `close` returns for a correctly signed `state`.
pub open spec fn close_result(
    env: ChannelEnvView,
    channel_id: u64,
    state: StateView,
) -> Result<(), Error> {
    match close_precluded(env, channel_id, state) {
        Some(error) => Err(error),
        None => match apply_result(env.channels[channel_id], state, false) {
            Ok(_) => Ok(()),
            Err(error) => Err(error),
        },
    }
}

/// `env` after a successful `close`.
pub open spec fn closed(
    env: ChannelEnvView,
    channel_id: u64,
    state: StateView,
) -> ChannelEnvView {
    let next = applied(env.channels[channel_id], state);
    announced(
        env,
        channel_id,
        ChannelView { phase: ChannelPhase::Closed, closed_at: env.sequence, ..next },
        state,
    )
}

/// The checks that `close` makes before it looks at the signature.
fn check_close(env: &ChannelEnv, channel: &MultiAssetChannel, state: &MultiAssetState) -> (checked:
    Result<(), Error>)
    ensures
        checked == if channel.phase != ChannelPhase::Open {
            Err::<(), Error>(Error::ChannelNotOpen)
        } else if expired(env@, channel@) {
            Err(Error::ChannelExpired)
        } else if state.nonce < channel.nonce {
            Err(Error::StaleState)
        } else {
            Ok(())
        },
{
    if channel.phase != ChannelPhase::Open {
        return Err(Error::ChannelNotOpen);
    }
    if is_expired(env, channel) {
        return Err(Error::ChannelExpired);
    }
    // The closing state may repeat the latest nonce but never go back.

    if state.nonce < channel.nonce {
        return Err(Error::StaleState);
    }
    Ok(())
}

/// Close an open channel with a signed state, starting the challenge window.
///
/// The call traps on a signature that does not verify; [`try_close`] is for
/// signatures of which that is not known.
pub fn close(
    env: &mut ChannelEnv,
    channel_id: u64,
    state: MultiAssetState,
    signature: &[u8; 64],
) -> (outcome: Result<(), Error>)
    requires
        old(env).wf(),
        state.wf(),
        close_precluded(old(env)@, channel_id, state@) is None ==> signed(
            old(env)@.contract,
            channel_id,
            old(env)@.channels[channel_id],
            state@,
            signature@,
        ),
    ensures
        final(env).wf(),
        outcome == close_result(old(env)@, channel_id, state@),
        outcome is Ok ==> final(env)@ == closed(old(env)@, channel_id, state@),
        outcome is Err ==> *final(env) == *old(env),
{
    let channel = match load(env, channel_id) {
        Err(error) => {
            return Err(error);
        },
        Ok(channel) => channel,
    };
    match check_close(env, &channel, &state) {
        Err(error) => {
            return Err(error);
        },
        Ok(()) => {},
    }
    let mut channel = match apply_state(
        &env.contract,
        channel_id,
        channel,
        &state,
        signature,
        false,
    ) {
        Err(error) => {
            return Err(error);
        },
        Ok(channel) => channel,
    };
    channel.phase = ChannelPhase::Closed;
    channel.closed_at = env.sequence;
    announce(env, channel_id, channel, state);
    Ok(())
}

/// [`close`] for any signature: `None` is the trap that a signature runs into
/// that does not verify.
pub fn try_close(
    env: &mut ChannelEnv,
    channel_id: u64,
    state: MultiAssetState,
    signature: &[u8; 64],
) -> (outcome: Option<Result<(), Error>>)
    requires
        old(env).wf(),
        state.wf(),
    ensures
        final(env).wf(),
        outcome == if close_precluded(old(env)@, channel_id, state@) is None && !signed(
            old(env)@.contract,
            channel_id,
            old(env)@.channels[channel_id],
            state@,
            signature@,
        ) {
            None::<Result<(), Error>>
        } else {
            Some(close_result(old(env)@, channel_id, state@))
        },
        outcome == Some(Ok::<(), Error>(())) ==> final(env)@ == closed(
            old(env)@,
            channel_id,
            state@,
        ),
        outcome != Some(Ok::<(), Error>(())) ==> *final(env) == *old(env),
{
    match load(env, channel_id) {
        Err(error) => {
            return Some(Err(error));
        },
        Ok(channel) => match check_close(env, &channel, &state) {
            Err(error) => {
                return Some(Err(error));
            },
            Ok(()) => if !verify_state(&env.contract, channel_id, &channel, &state, signature) {
                return None;
            },
        },
    }
    Some(close(env, channel_id, state, signature))
}

/// What is left of a deposit once the receiver has their balance.
pub open spec fn refund_of(record: BalanceRecord) -> int {
    record.deposit - record.receiver_balance
}

/// What `settle` returns.
pub open spec fn settle_result(env: ChannelEnvView, channel_id: u64) -> Result<(), Error> {
    if !env.channels.contains_key(channel_id) {
        Err(Error::ChannelNotFound)
    } else {
        let channel = env.channels[channel_id];
        let refusal = match channel.phase {
            ChannelPhase::Closed => if dispute::window_runs(
                env.sequence,
                channel.closed_at,
                channel.challenge_period,
            ) {
                Some(Error::ChallengeActive)
            } else {
                None
            },
            ChannelPhase::Open => if expired(env, channel) {
                None
            } else {
                Some(Error::ChallengeActive)
            },
            ChannelPhase::Finalized => Some(Error::ChannelAlreadyClosed),
        };
        match refusal {
            Some(error) => Err(error),
            None => if exists|i: int|
                0 <= i < channel.assets.len() && !(i128::MIN <= refund_of(
                    (#[trigger] channel.assets[i]).1,
                ) <= i128::MAX) {
                Err(Error::MathOverflow)
            } else {
                Ok(())
            },
        }
    }
}

/// The transfers that settle one asset: the receiver's balance, then the
/// sender's refund of the same token, each where there is anything to pay.
pub open spec fn asset_payout(
    contract: Address,
    channel: ChannelView,
    asset: Address,
    record: BalanceRecord,
) -> Seq<EffectView> {
    let paid = if record.receiver_balance > 0 {
        seq![
            EffectView::Transfer(
                Transfer {
                    token: asset,
                    from: contract,
                    to: channel.receiver,
                    amount: record.receiver_balance,
                },
            ),
        ]
    } else {
        seq![]
    };
    let refunded = if refund_of(record) > 0 {
        seq![
            EffectView::Transfer(
                Transfer {
                    token: asset,
                    from: contract,
                    to: channel.sender,
                    amount: refund_of(record) as i128,
                },
            ),
        ]
    } else {
        seq![]
    };
    paid + refunded
}

/// The transfers that settle the first `n` assets.
pub open spec fn payouts(contract: Address, channel: ChannelView, n: int) -> Seq<EffectView>
    decreases n,
{
    if n <= 0 {
        seq![]
    } else {
        payouts(contract, channel, n - 1) + asset_payout(
            contract,
            channel,
            channel.assets[n - 1].0,
            channel.assets[n - 1].1,
        )
    }
}

/// The receiver's balances, asset by asset.
pub open spec fn receiver_shares(assets: Seq<(Address, BalanceRecord)>) -> Seq<(Address, i128)> {
    assets.map_values(|entry: (Address, BalanceRecord)| (entry.0, entry.1.receiver_balance))
}

/// The sender's refunds, asset by asset.
pub open spec fn sender_shares(assets: Seq<(Address, BalanceRecord)>) -> Seq<(Address, i128)> {
    assets.map_values(|entry: (Address, BalanceRecord)| (entry.0, refund_of(entry.1) as i128))
}

/// `env` after a successful `settle`: the channel is final before anything is
/// paid out.
pub open spec fn settled(env: ChannelEnvView, channel_id: u64) -> ChannelEnvView {
    let channel = env.channels[channel_id];
    let kept = stored(
        env,
        channel_id,
        ChannelView { phase: ChannelPhase::Finalized, ..channel },
    );
    ChannelEnvView {
        effects: (kept.effects + payouts(
            env.contract,
            channel,
            channel.assets.len() as int,
        )).push(
            EffectView::Settled {
                channel_id,
                receiver_payouts: receiver_shares(channel.assets),
                sender_refunds: sender_shares(channel.assets),
            },
        ),
        ..kept
    }
}

/// Settle every asset in one atomic transaction. Callable by anyone once a
/// closed channel's challenge window has elapsed, or once an open channel
/// has outlived the maximum lifetime.
pub fn settle(env: &mut ChannelEnv, channel_id: u64) -> (outcome: Result<(), Error>)
    requires
        old(env).wf(),
    ensures
        final(env).wf(),
        outcome == settle_result(old(env)@, channel_id),
        outcome is Ok ==> final(env)@ == settled(old(env)@, channel_id),
        outcome is Err ==> *final(env) == *old(env),
{
    let mut channel = match load(env, channel_id) {
        Err(error) => {
            return Err(error);
        },
        Ok(channel) => channel,
    };
    match channel.phase {
        ChannelPhase::Closed => match ensure_window_elapsed(
            env.sequence,
            channel.closed_at,
            channel.challenge_period,
        ) {
            Err(error) => {
                return Err(error);
            },
            Ok(()) => {},
        },
        ChannelPhase::Open => if !is_expired(env, &channel) {
            return Err(Error::ChallengeActive);
        },
        ChannelPhase::Finalized => {
            return Err(Error::ChannelAlreadyClosed);
        },
    }
    let contract = env.contract;
    let ghost settling = channel@;
    let ghost assets = channel.assets@;
    let mut transfers: Vec<Effect> = Vec::new();
    let mut receiver_payouts: SortedMap<Address, i128> = SortedMap::new();
    let mut sender_refunds: SortedMap<Address, i128> = SortedMap::new();
    let mut i: usize = 0;
    #[verifier::loop_isolation(false)]
    while i < channel.assets.len()
        invariant
            i <= assets.len(),
            forall|j: int|
                0 <= j < i ==> i128::MIN <= refund_of((#[trigger] assets[j]).1) <= i128::MAX,
            transfers@.map_values(|effect: Effect| effect@) == payouts(
                contract,
                settling,
                i as int,
            ),
            receiver_payouts.wf(),
            receiver_payouts@ == receiver_shares(assets).take(i as int),
            sender_refunds.wf(),
            sender_refunds@ == sender_shares(assets).take(i as int),
        decreases assets.len() - i,
    {
        let (asset, record) = *channel.assets.entry(i);
        let refund: i128 = match record.deposit.checked_sub(record.receiver_balance) {
            None => {
                assert(refund_of(assets[i as int].1) == record.deposit - record.receiver_balance);
                return Err(Error::MathOverflow);
            },
            Some(refund) => refund,
        };
        let ghost listed = transfers@.map_values(|effect: Effect| effect@);
        if record.receiver_balance > 0 {
            transfers.push(
                Effect::Transfer(
                    Transfer {
                        token: asset,
                        from: contract,
                        to: channel.receiver,
                        amount: record.receiver_balance,
                    },
                ),
            );
        }
        if refund > 0 {
            transfers.push(
                Effect::Transfer(
                    Transfer { token: asset, from: contract, to: channel.sender, amount: refund },
                ),
            );
        }
        assert forall|j: int| 0 <= j < i implies (#[trigger] assets[j]).0.before(asset) by {
            assert(assets[j].0.before(assets[i as int].0));
        }
        receiver_payouts.set(asset, record.receiver_balance);
        sender_refunds.set(asset, refund);
        proof {
            assert(transfers@.map_values(|effect: Effect| effect@) =~= listed + asset_payout(
                contract,
                settling,
                asset,
                record,
            ));
            assert(receiver_payouts@ =~= receiver_shares(assets).take(i + 1));
            assert(sender_refunds@ =~= sender_shares(assets).take(i + 1));
        }
        i += 1;
    }
    assert(receiver_payouts@ =~= receiver_shares(assets));
    assert(sender_refunds@ =~= sender_shares(assets));

    // The channel is final before anything is paid out.
    let ghost goal = settled(env@, channel_id);
    let ghost listed = transfers@.map_values(|effect: Effect| effect@);
    channel.phase = ChannelPhase::Finalized;
    store(env, channel_id, channel);
    let ghost kept = env@;
    env.effects.append(&mut transfers);
    assert(env@.effects =~= kept.effects + listed);
    env.effects.push(
        Effect::Settled(MultiAssetSettledEvent { channel_id, receiver_payouts, sender_refunds }),
    );
    assert(env@.effects =~= goal.effects);
    assert(env@ =~= goal);
    Ok(())
}

/// The stored channel `channel_id`.
pub fn get(env: &ChannelEnv, channel_id: u64) -> (loaded: Result<MultiAssetChannel, Error>)
    requires
        env.wf(),
    ensures
        match loaded {
            Ok(channel) => env@.channels.contains_key(channel_id) && channel@
                == env@.channels[channel_id] && channel.assets.wf(),
            Err(error) => !env@.channels.contains_key(channel_id) && error
                == Error::ChannelNotFound,
        },
{
    load(env, channel_id)
}

} // verus!
