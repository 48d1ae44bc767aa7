use accensa_contracts::address::Address;
use accensa_contracts::error::Error;
use accensa_contracts::multi_asset::{
    close, get, max_lifetime, open, settle, state_payload, try_close, try_open, try_update, update,
    BalanceRecord, ChannelEnv, ChannelPhase, DataKey, Effect, MultiAssetChannel,
    MultiAssetChannelOpenedEvent, MultiAssetSettledEvent, MultiAssetState,
    MultiAssetStateUpdatedEvent, MAX_ASSETS, PAYLOAD_DOMAIN,
};
use accensa_contracts::sorted_map::SortedMap;
use accensa_contracts::token::Transfer;
use ed25519_dalek::{Signer, SigningKey};

const DEPOSIT_USDC: i128 = 1_000;
const DEPOSIT_EURC: i128 = 500;
const DEPOSIT_XLM: i128 = 20_000;
const CHALLENGE: u32 = 100;

const CONTRACT: Address = Address::Contract([0xc0; 32]);
const SENDER: Address = Address::Account([0x51; 32]);
const RECEIVER: Address = Address::Account([0x52; 32]);
const USDC: Address = Address::Contract([0x22; 32]);
const EURC: Address = Address::Contract([0x11; 32]);
const XLM: Address = Address::Contract([0x33; 32]);

/// The contract, and what its transfers have done to the balances of others.
struct Setup {
    env: ChannelEnv,
    performed: usize,
    balances: Vec<(Address, Address, i128)>,
    sk: SigningKey,
}

fn setup() -> Setup {
    Setup {
        env: ChannelEnv {
            contract: CONTRACT,
            sequence: 7,
            auths: vec![SENDER],
            token: Some(USDC),
            channel_count: None,
            max_channel_lifetime: None,
            default_max_channel_lifetime: 6_307_200,
            channels: SortedMap::new(),
            effects: Vec::new(),
        },
        performed: 0,
        balances: vec![
            (USDC, SENDER, 1_000_000),
            (EURC, SENDER, 1_000_000),
            (XLM, SENDER, 1_000_000),
        ],
        sk: SigningKey::from_bytes(&[3u8; 32]),
    }
}

fn amounts(entries: &[(Address, i128)]) -> SortedMap<Address, i128> {
    let mut map = SortedMap::new();
    for (asset, amount) in entries.iter() {
        map.set(*asset, *amount);
    }
    map
}

fn state(nonce: u64, usdc: i128, eurc: i128, xlm: i128) -> MultiAssetState {
    MultiAssetState {
        nonce,
        balances: amounts(&[(USDC, usdc), (EURC, eurc), (XLM, xlm)]),
    }
}

fn deposits() -> SortedMap<Address, i128> {
    amounts(&[
        (USDC, DEPOSIT_USDC),
        (EURC, DEPOSIT_EURC),
        (XLM, DEPOSIT_XLM),
    ])
}

impl Setup {
    fn pubkey(&self) -> [u8; 32] {
        self.sk.verifying_key().to_bytes()
    }

    fn shift(&mut self, token: Address, who: Address, by: i128) {
        for entry in self.balances.iter_mut() {
            if entry.0 == token && entry.1 == who {
                entry.2 += by;
                return;
            }
        }
        self.balances.push((token, who, by));
    }

    /// Perform the transfers that were asked for since the last time.
    fn perform(&mut self) {
        let effects: Vec<Effect> = self.env.effects[self.performed..].to_vec();
        self.performed = self.env.effects.len();
        for effect in effects.iter() {
            if let Effect::Transfer(transfer) = effect {
                assert!(transfer.amount > 0);
                self.shift(transfer.token, transfer.from, -transfer.amount);
                self.shift(transfer.token, transfer.to, transfer.amount);
            }
        }
    }

    fn open(&mut self) -> u64 {
        let pubkey = self.pubkey();
        let id = open(
            &mut self.env,
            SENDER,
            RECEIVER,
            pubkey,
            deposits(),
            CHALLENGE,
        )
        .unwrap();
        self.perform();
        id
    }

    fn sign(&self, channel_id: u64, state: &MultiAssetState) -> [u8; 64] {
        let payload = state_payload(&CONTRACT, channel_id, state);
        self.sk.sign(&payload).to_bytes()
    }

    fn update(&mut self, channel_id: u64, state: &MultiAssetState) -> Result<(), Error> {
        let signature = self.sign(channel_id, state);
        let outcome = try_update(&mut self.env, channel_id, state.clone(), &signature);
        self.perform();
        outcome.unwrap()
    }

    fn close(&mut self, channel_id: u64, state: &MultiAssetState) -> Result<(), Error> {
        let signature = self.sign(channel_id, state);
        let outcome = try_close(&mut self.env, channel_id, state.clone(), &signature);
        self.perform();
        outcome.unwrap()
    }

    fn settle(&mut self, channel_id: u64) -> Result<(), Error> {
        let outcome = settle(&mut self.env, channel_id);
        self.perform();
        outcome
    }

    fn channel(&self, channel_id: u64) -> MultiAssetChannel {
        get(&self.env, channel_id).unwrap()
    }

    fn balance(&self, token: Address, who: Address) -> i128 {
        let mut total: i128 = 0;
        for entry in self.balances.iter() {
            if entry.0 == token && entry.1 == who {
                total += entry.2;
            }
        }
        total
    }

    fn advance(&mut self, ledgers: u32) {
        self.env.sequence += ledgers;
    }
}

#[test]
fn open_escrows_every_asset() {
    let mut s = setup();
    let id = s.open();

    let channel = s.channel(id);
    assert_eq!(channel.assets.len(), 3);
    assert_eq!(
        *channel.assets.get(&EURC).unwrap(),
        BalanceRecord {
            deposit: DEPOSIT_EURC,
            receiver_balance: 0
        }
    );
    assert_eq!(s.balance(USDC, CONTRACT), DEPOSIT_USDC);
    assert_eq!(s.balance(EURC, CONTRACT), DEPOSIT_EURC);
    assert_eq!(s.balance(XLM, CONTRACT), DEPOSIT_XLM);
}

#[test]
fn single_close_settles_all_assets_with_per_asset_conservation() {
    let mut s = setup();
    let id = s.open();

    let st1 = state(1, 100, 50, 0);
    s.update(id, &st1).unwrap();
    let st2 = state(2, 400, 500, 7_000);
    s.close(id, &st2).unwrap();

    s.advance(CHALLENGE + 1);
    let sender_before = [
        s.balance(USDC, SENDER),
        s.balance(EURC, SENDER),
        s.balance(XLM, SENDER),
    ];
    s.settle(id).unwrap();

    let expected = [
        (USDC, 400, DEPOSIT_USDC),
        (EURC, 500, DEPOSIT_EURC),
        (XLM, 7_000, DEPOSIT_XLM),
    ];
    for (i, (token, paid, deposit)) in expected.into_iter().enumerate() {
        assert_eq!(s.balance(token, RECEIVER), paid);
        assert_eq!(s.balance(token, SENDER) - sender_before[i], deposit - paid);
        assert_eq!(s.balance(token, CONTRACT), 0);
    }
    assert_eq!(s.channel(id).phase, ChannelPhase::Finalized);
    assert_eq!(s.settle(id), Err(Error::ChannelAlreadyClosed));
}

#[test]
fn substituted_currency_is_rejected() {
    let mut s = setup();
    let id = s.open();
    let other = Address::Contract([0x44; 32]);

    // Same number of assets, but EURC swapped for a token the channel
    // never escrowed.
    let st = MultiAssetState {
        nonce: 1,
        balances: amounts(&[(USDC, 1), (other, 1), (XLM, 1)]),
    };
    assert_eq!(s.update(id, &st), Err(Error::UnsupportedAsset));
}

#[test]
fn omitted_asset_is_rejected() {
    let mut s = setup();
    let id = s.open();
    let st = MultiAssetState {
        nonce: 1,
        balances: amounts(&[(USDC, 1), (XLM, 1)]),
    };
    assert_eq!(s.close(id, &st), Err(Error::UnsupportedAsset));
}

#[test]
fn value_cannot_move_between_assets() {
    let mut s = setup();
    let id = s.open();
    // Total value would fit in the pool, but EURC exceeds its own deposit.
    let st = state(1, 0, DEPOSIT_EURC + 1, 0);
    assert_eq!(s.update(id, &st), Err(Error::ExceedsPayment));
    let negative = state(1, -1, 0, 0);
    assert_eq!(s.update(id, &negative), Err(Error::ExceedsPayment));
}

#[test]
fn stale_state_is_rejected() {
    let mut s = setup();
    let id = s.open();
    let st = state(5, 1, 1, 1);
    s.update(id, &st).unwrap();

    let old = state(5, 2, 2, 2);
    assert_eq!(s.update(id, &old), Err(Error::StaleState));
    let older = state(4, 2, 2, 2);
    assert_eq!(s.close(id, &older), Err(Error::StaleState));
}

#[test]
fn newer_state_during_challenge_window_wins() {
    let mut s = setup();
    let id = s.open();

    // Sender closes with an old, favourable state.
    let old = state(1, 10, 10, 10);
    s.close(id, &old).unwrap();
    assert_eq!(s.settle(id), Err(Error::ChallengeActive));

    // Receiver answers with the latest state inside the window.
    s.advance(CHALLENGE / 2);
    let newer = state(2, 900, 400, 15_000);
    s.update(id, &newer).unwrap();

    // The challenge re-armed the window.
    s.advance(CHALLENGE / 2 + 1);
    assert_eq!(s.settle(id), Err(Error::ChallengeActive));
    s.advance(CHALLENGE);
    s.settle(id).unwrap();

    assert_eq!(s.balance(USDC, RECEIVER), 900);
    assert_eq!(s.balance(EURC, RECEIVER), 400);
    assert_eq!(s.balance(XLM, RECEIVER), 15_000);
}

#[test]
fn update_after_challenge_window_is_rejected() {
    let mut s = setup();
    let id = s.open();
    let st = state(1, 1, 1, 1);
    s.close(id, &st).unwrap();
    s.advance(CHALLENGE + 1);

    let late = state(2, 2, 2, 2);
    assert_eq!(s.update(id, &late), Err(Error::ChallengeExpired));
}

#[test]
#[should_panic]
fn state_signed_for_another_channel_is_rejected() {
    let mut s = setup();
    let a = s.open();
    let b = s.open();
    let st = state(1, 1, 1, 1);
    let signature = s.sign(a, &st);
    let _ = update(&mut s.env, b, st, &signature);
}

#[test]
fn open_channel_settles_only_after_expiry() {
    let mut s = setup();
    let id = s.open();
    let st = state(1, 250, 0, 1);
    s.update(id, &st).unwrap();

    assert_eq!(s.settle(id), Err(Error::ChallengeActive));
    s.advance(max_lifetime(&s.env) + 1);
    s.settle(id).unwrap();

    assert_eq!(s.balance(USDC, RECEIVER), 250);
    assert_eq!(s.balance(EURC, RECEIVER), 0);
    assert_eq!(s.balance(XLM, RECEIVER), 1);
    assert_eq!(s.balance(EURC, CONTRACT), 0);
}

#[test]
fn invalid_deposits_are_rejected() {
    let mut s = setup();
    let pk = s.pubkey();
    assert_eq!(
        open(
            &mut s.env,
            SENDER,
            RECEIVER,
            pk,
            SortedMap::new(),
            CHALLENGE
        ),
        Err(Error::InvalidAmount)
    );
    assert_eq!(
        open(
            &mut s.env,
            SENDER,
            RECEIVER,
            pk,
            amounts(&[(USDC, 10), (EURC, 0)]),
            CHALLENGE
        ),
        Err(Error::InvalidAmount)
    );
}

#[test]
fn ids_are_shared_with_single_asset_channels() {
    let mut s = setup();
    // A single-asset channel takes the first id.
    let single: u64 = 1;
    s.env.channel_count = Some(single);
    let multi = s.open();
    assert_eq!(multi, single + 1);
    assert_eq!(get(&s.env, single), Err(Error::ChannelNotFound));
}

#[test]
fn a_bad_signature_is_a_trap_and_changes_nothing() {
    let mut s = setup();
    let a = s.open();
    let b = s.open();
    let st = state(1, 1, 1, 1);
    let signature = s.sign(a, &st);
    let before = s.env.clone();
    assert_eq!(try_update(&mut s.env, b, st.clone(), &signature), None);
    assert_eq!(try_close(&mut s.env, b, st.clone(), &signature), None);
    assert_eq!(s.env, before);

    // The same signature is good where it belongs.
    assert_eq!(
        try_update(&mut s.env, a, st.clone(), &signature),
        Some(Ok(()))
    );

    // It says nothing of another balance.
    let tampered = state(2, 1, 1, 2);
    let other = s.sign(a, &state(2, 1, 1, 1));
    assert_eq!(try_update(&mut s.env, a, tampered, &other), None);
}

#[test]
fn a_refusal_before_the_signature_wins_over_a_bad_signature() {
    let mut s = setup();
    let st = state(1, 1, 1, 1);
    assert_eq!(
        try_update(&mut s.env, 1, st.clone(), &[0; 64]),
        Some(Err(Error::ChannelNotFound))
    );
    let id = s.open();
    s.update(id, &state(3, 1, 1, 1)).unwrap();
    assert_eq!(
        try_close(&mut s.env, id, st.clone(), &[0; 64]),
        Some(Err(Error::StaleState))
    );
    // A stale update is only found out after its signature.
    assert_eq!(try_update(&mut s.env, id, st, &[0; 64]), None);
}

#[test]
fn signed_calls_work_without_the_trap() {
    let mut s = setup();
    let id = s.open();
    let st = state(1, 1, 2, 3);
    let signature = s.sign(id, &st);
    assert_eq!(update(&mut s.env, id, st.clone(), &signature), Ok(()));
    assert_eq!(close(&mut s.env, id, st, &signature), Ok(()));
    assert_eq!(s.channel(id).phase, ChannelPhase::Closed);
}

#[test]
fn an_uninitialized_contract_opens_nothing() {
    let mut s = setup();
    s.env.token = None;
    let pk = s.pubkey();
    assert_eq!(
        open(
            &mut s.env,
            SENDER,
            RECEIVER,
            pk,
            SortedMap::new(),
            CHALLENGE
        ),
        Err(Error::NotInitialized)
    );
}

#[test]
fn a_pool_has_at_most_ten_assets() {
    let mut s = setup();
    let pk = s.pubkey();
    let mut pool: SortedMap<Address, i128> = SortedMap::new();
    for n in 0..MAX_ASSETS {
        pool.set(Address::Contract([n as u8; 32]), 1);
    }
    assert_eq!(
        open(&mut s.env, SENDER, RECEIVER, pk, pool.clone(), CHALLENGE),
        Ok(1)
    );
    pool.set(Address::Contract([99; 32]), 1);
    assert_eq!(
        open(&mut s.env, SENDER, RECEIVER, pk, pool, CHALLENGE),
        Err(Error::BatchTooLarge)
    );
}

#[test]
fn the_effects_of_opening_come_in_order() {
    let mut s = setup();
    let id = s.open();
    let transfer = |token: Address, amount: i128| {
        Effect::Transfer(Transfer {
            token,
            from: SENDER,
            to: CONTRACT,
            amount,
        })
    };
    assert_eq!(
        s.env.effects,
        vec![
            transfer(EURC, DEPOSIT_EURC),
            transfer(USDC, DEPOSIT_USDC),
            transfer(XLM, DEPOSIT_XLM),
            Effect::Write(DataKey::ChannelCount),
            Effect::ExtendInstanceTtl,
            Effect::Write(DataKey::MultiAssetChannel(id)),
            Effect::ExtendTtl(DataKey::MultiAssetChannel(id)),
            Effect::Opened(MultiAssetChannelOpenedEvent {
                channel_id: id,
                sender: SENDER,
                receiver: RECEIVER,
                deposits: deposits(),
                challenge_period: CHALLENGE
            }),
        ]
    );
    let channel = s.channel(id);
    assert_eq!(channel.opened_at, 7);
    assert_eq!(channel.closed_at, 0);
    assert_eq!(channel.nonce, 0);
    assert_eq!(channel.phase, ChannelPhase::Open);
    assert_eq!(channel.challenge_period, CHALLENGE);
    assert_eq!(channel.sender_pubkey, s.pubkey());
}

#[test]
fn a_channel_is_final_before_it_pays() {
    let mut s = setup();
    let id = s.open();
    s.close(id, &state(1, 0, 500, 1)).unwrap();
    s.advance(CHALLENGE + 1);
    let from: usize = s.env.effects.len();
    s.settle(id).unwrap();
    let pay = |token: Address, to: Address, amount: i128| {
        Effect::Transfer(Transfer {
            token,
            from: CONTRACT,
            to,
            amount,
        })
    };
    assert_eq!(
        s.env.effects[from..],
        [
            Effect::Write(DataKey::MultiAssetChannel(id)),
            Effect::ExtendTtl(DataKey::MultiAssetChannel(id)),
            // Nothing is left of EURC for the sender, nor of USDC for the receiver.
            pay(EURC, RECEIVER, 500),
            pay(USDC, SENDER, 1_000),
            pay(XLM, RECEIVER, 1),
            pay(XLM, SENDER, 19_999),
            Effect::Settled(MultiAssetSettledEvent {
                channel_id: id,
                receiver_payouts: amounts(&[(EURC, 500), (USDC, 0), (XLM, 1)]),
                sender_refunds: amounts(&[(EURC, 0), (USDC, 1_000), (XLM, 19_999)]),
            }),
        ]
    );
}

#[test]
fn an_accepted_state_is_announced() {
    let mut s = setup();
    let id = s.open();
    s.update(id, &state(1, 1, 2, 3)).unwrap();
    assert_eq!(
        s.env.effects.last(),
        Some(&Effect::Updated(MultiAssetStateUpdatedEvent {
            channel_id: id,
            nonce: 1,
            balances: state(1, 1, 2, 3).balances,
            phase: ChannelPhase::Open
        }))
    );
    // A closing state may repeat the latest nonce.
    s.close(id, &state(1, 1, 2, 3)).unwrap();
    assert_eq!(
        s.env.effects.last(),
        Some(&Effect::Updated(MultiAssetStateUpdatedEvent {
            channel_id: id,
            nonce: 1,
            balances: state(1, 1, 2, 3).balances,
            phase: ChannelPhase::Closed
        }))
    );
    assert_eq!(s.channel(id).closed_at, 7);
}

#[test]
fn the_window_is_either_open_or_elapsed() {
    let mut s = setup();
    let id = s.open();
    s.close(id, &state(1, 1, 1, 1)).unwrap();
    // The last ledger of the window.
    s.advance(CHALLENGE);
    assert_eq!(s.settle(id), Err(Error::ChallengeActive));
    assert_eq!(s.update(id, &state(2, 2, 2, 2)), Ok(()));
    s.advance(CHALLENGE + 1);
    assert_eq!(
        s.update(id, &state(3, 3, 3, 3)),
        Err(Error::ChallengeExpired)
    );
    assert_eq!(s.settle(id), Ok(()));
    assert_eq!(s.balance(USDC, RECEIVER), 2);
}

#[test]
fn a_settled_channel_takes_no_more_states() {
    let mut s = setup();
    let id = s.open();
    s.close(id, &state(1, 1, 1, 1)).unwrap();
    assert_eq!(s.close(id, &state(2, 1, 1, 1)), Err(Error::ChannelNotOpen));
    s.advance(CHALLENGE + 1);
    s.settle(id).unwrap();
    assert_eq!(s.update(id, &state(2, 1, 1, 1)), Err(Error::ChannelNotOpen));
    assert_eq!(s.close(id, &state(2, 1, 1, 1)), Err(Error::ChannelNotOpen));
}

#[test]
fn an_expired_channel_cannot_be_closed() {
    let mut s = setup();
    s.env.max_channel_lifetime = Some(50);
    let id = s.open();
    s.advance(50);
    assert_eq!(s.settle(id), Err(Error::ChallengeActive));
    s.advance(1);
    assert_eq!(s.close(id, &state(1, 1, 1, 1)), Err(Error::ChannelExpired));
    assert_eq!(s.update(id, &state(1, 5, 5, 5)), Ok(()));
    assert_eq!(s.settle(id), Ok(()));
    assert_eq!(s.balance(EURC, RECEIVER), 5);
}

#[test]
fn a_refund_that_does_not_fit_is_refused() {
    let mut s = setup();
    let id = s.open();
    let mut channel = s.channel(id);
    channel.assets.set(
        XLM,
        BalanceRecord {
            deposit: i128::MAX,
            receiver_balance: -1,
        },
    );
    s.env.channels.set(id, channel);
    s.env.max_channel_lifetime = Some(0);
    s.advance(1);
    let before = s.env.clone();
    assert_eq!(s.settle(id), Err(Error::MathOverflow));
    assert_eq!(s.env, before);
}

#[test]
fn unknown_channels_are_not_found() {
    let mut s = setup();
    assert_eq!(get(&s.env, 1), Err(Error::ChannelNotFound));
    assert_eq!(s.settle(1), Err(Error::ChannelNotFound));
    assert_eq!(
        s.close(1, &state(1, 0, 0, 0)),
        Err(Error::ChannelNotFound)
    );
}

#[test]
fn the_first_fault_decides() {
    let mut s = setup();
    let id = s.open();
    let other = Address::Contract([0x44; 32]);
    // EURC comes before the token that the channel never escrowed.
    let st = MultiAssetState {
        nonce: 1,
        balances: amounts(&[(EURC, -1), (USDC, 1), (other, 1)]),
    };
    assert_eq!(s.update(id, &st), Err(Error::ExceedsPayment));
    let first = Address::Contract([0x01; 32]);
    let st = MultiAssetState {
        nonce: 1,
        balances: amounts(&[(first, 1), (EURC, -1), (USDC, 1)]),
    };
    assert_eq!(s.update(id, &st), Err(Error::UnsupportedAsset));
    // A stale nonce is found out first of all.
    let st = MultiAssetState {
        nonce: 0,
        balances: amounts(&[(first, -1)]),
    };
    assert_eq!(s.update(id, &st), Err(Error::StaleState));
}

#[test]
fn a_channel_keeps_its_terms_through_its_life() {
    let mut s = setup();
    let id = s.open();
    let opened = s.channel(id);
    let mut nonce: u64 = 0;
    for step in 0..5 {
        match step {
            0 => s.update(id, &state(1, 1, 2, 3)).unwrap(),
            1 => s.close(id, &state(1, 4, 5, 6)).unwrap(),
            2 => s.update(id, &state(9, 7, 8, 9)).unwrap(),
            3 => {
                s.advance(CHALLENGE + 1);
                s.settle(id).unwrap();
            }
            _ => assert_eq!(s.settle(id), Err(Error::ChannelAlreadyClosed)),
        }
        let channel = s.channel(id);
        assert_eq!(channel.sender, opened.sender);
        assert_eq!(channel.receiver, opened.receiver);
        assert_eq!(channel.sender_pubkey, opened.sender_pubkey);
        assert_eq!(channel.opened_at, opened.opened_at);
        assert_eq!(channel.challenge_period, opened.challenge_period);
        assert!(channel.nonce >= nonce);
        nonce = channel.nonce;
        assert_eq!(channel.closed_at == 0, channel.phase == ChannelPhase::Open);
        assert_eq!(channel.assets.len(), 3);
        for i in 0..3 {
            let (asset, record) = *channel.assets.entry(i);
            assert_eq!(asset, opened.assets.entry(i).0);
            assert_eq!(record.deposit, opened.assets.entry(i).1.deposit);
            assert!(0 <= record.receiver_balance && record.receiver_balance <= record.deposit);
        }
    }
}

#[test]
fn an_unauthorized_opening_changes_nothing() {
    let mut s = setup();
    let pk = s.pubkey();
    s.env.auths = vec![RECEIVER];
    let before = s.env.clone();
    assert_eq!(
        try_open(&mut s.env, SENDER, RECEIVER, pk, deposits(), CHALLENGE),
        None
    );
    assert_eq!(s.env, before);
    // What comes before the authorization is answered without it.
    assert_eq!(
        try_open(
            &mut s.env,
            SENDER,
            RECEIVER,
            pk,
            SortedMap::new(),
            CHALLENGE
        ),
        Some(Err(Error::InvalidAmount))
    );
    s.env.auths.push(SENDER);
    assert_eq!(
        try_open(&mut s.env, SENDER, RECEIVER, pk, deposits(), CHALLENGE),
        Some(Ok(1))
    );
}

#[test]
fn no_channel_is_opened_without_an_id() {
    let mut s = setup();
    let pk = s.pubkey();
    s.env.channel_count = Some(u64::MAX);
    let before = s.env.clone();
    assert_eq!(
        try_open(&mut s.env, SENDER, RECEIVER, pk, deposits(), CHALLENGE),
        None
    );
    // A bad amount is found out before the id is needed.
    assert_eq!(
        try_open(
            &mut s.env,
            SENDER,
            RECEIVER,
            pk,
            amounts(&[(USDC, 10), (EURC, 0)]),
            CHALLENGE
        ),
        Some(Err(Error::InvalidAmount))
    );
    assert_eq!(s.env, before);
    s.env.channel_count = Some(u64::MAX - 1);
    assert_eq!(
        try_open(&mut s.env, SENDER, RECEIVER, pk, deposits(), CHALLENGE),
        Some(Ok(u64::MAX))
    );
}

#[test]
fn the_domain_names_the_payload() {
    assert_eq!(&PAYLOAD_DOMAIN, b"accensa-ma-channel-v1");
}
