use accensa_contracts::address::Address;
use accensa_contracts::dust::{
    active_fee_recipient, admin, closed_at, dust_threshold, dust_treasury, set_dust_config,
    sweep_admin, sweep_dust, sweep_quote, try_set_dust_config, try_sweep_dust, DataKey,
    DustSweptEvent, Effect, RefundRecord, VaultEnv, DEFAULT_DUST_THRESHOLD,
    DUST_SWEEP_DELAY_LEDGERS,
};
use accensa_contracts::error::Error;
use accensa_contracts::sorted_map::SortedMap;
use accensa_contracts::token::Transfer;

const FLOAT: i128 = 1_000_000;
const WINDOW: u32 = 100;
const PAYMENT: i128 = 10_000;

const VAULT: Address = Address::Contract([1; 32]);
const TOKEN: Address = Address::Contract([2; 32]);
const MERCHANT: Address = Address::Account([3; 32]);
const TREASURY: Address = Address::Account([4; 32]);

/// A vault with a float, initialized by the merchant.
fn setup() -> VaultEnv {
    VaultEnv {
        contract: VAULT,
        sequence: 10,
        auths: vec![MERCHANT],
        lock_refusal: None,
        paused: None,
        admin: Some(MERCHANT),
        token: Some(TOKEN),
        dust_threshold: None,
        dust_treasury: None,
        fee_recipient: None,
        refund_window: Some(WINDOW),
        refunds: SortedMap::new(),
        float: FLOAT,
        effects: Vec::new(),
    }
}

fn payment_ref(n: u8) -> [u8; 32] {
    [n; 32]
}

/// Refund `amount` of a `PAYMENT`-sized payment made at the current ledger.
fn refund(env: &mut VaultEnv, pref: [u8; 32], amount: i128) {
    env.float -= amount;
    let now: u32 = env.sequence;
    env.refunds.set(
        pref,
        RefundRecord {
            payment_amount: PAYMENT,
            amount_refunded: amount,
            paid_at_ledger: now,
            ledger: now,
        },
    );
}

/// Advance to the first ledger at which a record paid (and last refunded)
/// at `paid_at` becomes sweepable.
fn advance_past_delay(env: &mut VaultEnv, paid_at: u32) {
    env.sequence = paid_at + WINDOW + DUST_SWEEP_DELAY_LEDGERS + 1;
}

/// What the effects bring to `who`, minus what they take from them.
fn moved(env: &VaultEnv, who: Address) -> i128 {
    let mut total: i128 = 0;
    for effect in env.effects.iter() {
        if let Effect::Transfer(transfer) = effect {
            assert_eq!(transfer.token, TOKEN);
            if transfer.to == who {
                total += transfer.amount;
            }
            if transfer.from == who {
                total -= transfer.amount;
            }
        }
    }
    total
}

#[test]
fn default_threshold_and_treasury() {
    let env = setup();
    assert_eq!(dust_threshold(&env), DEFAULT_DUST_THRESHOLD);
    // Falls back to the fee recipient, i.e. the merchant.
    assert_eq!(dust_treasury(&env), admin(&env).unwrap());
}

#[test]
fn sweep_moves_dust_to_treasury_and_reclaims_record() {
    let mut env = setup();
    set_dust_config(&mut env, 100, TREASURY).unwrap();

    let pref = payment_ref(1);
    let paid_at = env.sequence;
    refund(&mut env, pref, PAYMENT - 42);

    advance_past_delay(&mut env, paid_at);
    assert_eq!(sweep_dust(&mut env, pref), Ok(42));

    assert_eq!(moved(&env, TREASURY), 42);
    assert_eq!(moved(&env, VAULT), -42);
    assert_eq!(env.refunds.get(&pref), None);
    assert_eq!(sweep_dust(&mut env, pref), Err(Error::RefundNotFound));
}

#[test]
fn fully_refunded_record_is_reclaimed_without_transfer() {
    let mut env = setup();
    set_dust_config(&mut env, 100, TREASURY).unwrap();

    let pref = payment_ref(2);
    let paid_at = env.sequence;
    refund(&mut env, pref, PAYMENT);

    advance_past_delay(&mut env, paid_at);
    assert_eq!(sweep_dust(&mut env, pref), Ok(0));
    assert_eq!(moved(&env, TREASURY), 0);
    assert_eq!(env.refunds.get(&pref), None);
}

#[test]
fn non_dust_residual_is_rejected() {
    let mut env = setup();
    let pref = payment_ref(3);
    let paid_at = env.sequence;
    // Residual equals the threshold: not strictly below it.
    refund(&mut env, pref, PAYMENT - DEFAULT_DUST_THRESHOLD);

    advance_past_delay(&mut env, paid_at);
    assert_eq!(sweep_dust(&mut env, pref), Err(Error::InvalidAmount));
    assert!(env.refunds.get(&pref).is_some());
}

#[test]
fn sweep_before_ninety_days_is_rejected() {
    let mut env = setup();
    let pref = payment_ref(4);
    let paid_at = env.sequence;
    refund(&mut env, pref, PAYMENT - 1);

    // Exactly at the boundary: closed for 90 days, not *more* than 90 days.
    env.sequence = paid_at + WINDOW + DUST_SWEEP_DELAY_LEDGERS;
    assert_eq!(sweep_dust(&mut env, pref), Err(Error::TimelockNotExpired));
}

#[test]
fn later_refund_restarts_the_delay() {
    let mut env = setup();
    let pref = payment_ref(5);
    let paid_at = env.sequence;
    refund(&mut env, pref, PAYMENT - 500);

    // A partial refund processed after the window closes (e.g. with no
    // time policy gate) moves the closing point to that refund.
    let later = paid_at + WINDOW + 1_000;
    env.sequence = later;
    let mut record = *env.refunds.get(&pref).unwrap();
    record.amount_refunded = PAYMENT - 1;
    record.ledger = later;
    env.refunds.set(pref, record);

    advance_past_delay(&mut env, paid_at);
    assert_eq!(sweep_dust(&mut env, pref), Err(Error::TimelockNotExpired));
    env.sequence = later + DUST_SWEEP_DELAY_LEDGERS + 1;
    assert_eq!(sweep_dust(&mut env, pref), Ok(1));
}

#[test]
fn unknown_payment_ref_is_rejected() {
    let mut env = setup();
    assert_eq!(
        sweep_dust(&mut env, payment_ref(9)),
        Err(Error::RefundNotFound)
    );
}

#[test]
fn invalid_dust_config_is_rejected() {
    let mut env = setup();
    assert_eq!(
        set_dust_config(&mut env, 0, TREASURY),
        Err(Error::InvalidAmount)
    );
    assert_eq!(
        set_dust_config(&mut env, 100, VAULT),
        Err(Error::SelfTransfer)
    );
}

#[test]
#[should_panic]
fn sweep_requires_merchant_auth() {
    let mut env = setup();
    let pref = payment_ref(6);
    let paid_at = env.sequence;
    refund(&mut env, pref, PAYMENT - 1);
    advance_past_delay(&mut env, paid_at);

    env.auths.clear();
    let _ = sweep_dust(&mut env, pref);
}

#[test]
fn the_effects_of_a_sweep_come_in_order() {
    let mut env = setup();
    let pref = payment_ref(1);
    refund(&mut env, pref, PAYMENT - 7);
    advance_past_delay(&mut env, 10);
    assert_eq!(sweep_quote(&env, &pref), Ok(7));
    sweep_dust(&mut env, pref).unwrap();
    assert_eq!(
        env.effects,
        vec![
            Effect::Transfer(Transfer {
                token: TOKEN,
                from: VAULT,
                to: MERCHANT,
                amount: 7
            }),
            Effect::Remove(DataKey::RefundV2(pref)),
            Effect::Swept(DustSweptEvent {
                payment_ref: pref,
                amount: 7,
                treasury: MERCHANT
            }),
            Effect::ReleaseLock,
        ]
    );
}

#[test]
fn the_effects_of_a_configuration_come_in_order() {
    let mut env = setup();
    set_dust_config(&mut env, 5, TREASURY).unwrap();
    assert_eq!(
        env.effects,
        vec![
            Effect::Write(DataKey::DustThreshold),
            Effect::Write(DataKey::DustTreasury)
        ]
    );
    assert_eq!(dust_threshold(&env), 5);
    assert_eq!(dust_treasury(&env), TREASURY);
}

#[test]
fn a_refused_sweep_changes_nothing() {
    let mut env = setup();
    refund(&mut env, payment_ref(1), PAYMENT - 1);
    let before = env.clone();
    assert_eq!(
        sweep_dust(&mut env, payment_ref(1)),
        Err(Error::TimelockNotExpired)
    );
    assert_eq!(env, before);
}

#[test]
fn the_lock_the_pause_and_the_admin_come_first() {
    let mut env = setup();
    env.lock_refusal = Some(Error::Unauthorized);
    env.paused = Some(true);
    env.admin = None;
    assert_eq!(
        sweep_dust(&mut env, payment_ref(1)),
        Err(Error::Unauthorized)
    );
    env.lock_refusal = None;
    assert_eq!(sweep_dust(&mut env, payment_ref(1)), Err(Error::Paused));
    env.paused = Some(false);
    assert_eq!(
        sweep_dust(&mut env, payment_ref(1)),
        Err(Error::NotInitialized)
    );
    assert_eq!(admin(&env), Err(Error::NotInitialized));
    assert_eq!(
        set_dust_config(&mut env, 1, TREASURY),
        Err(Error::NotInitialized)
    );
    env.admin = Some(MERCHANT);
    assert_eq!(sweep_admin(&env), Ok(MERCHANT));
    assert_eq!(
        sweep_dust(&mut env, payment_ref(1)),
        Err(Error::RefundNotFound)
    );
}

#[test]
fn an_overdrawn_record_is_rejected() {
    let mut env = setup();
    refund(&mut env, payment_ref(1), PAYMENT + 1);
    advance_past_delay(&mut env, 10);
    assert_eq!(
        sweep_dust(&mut env, payment_ref(1)),
        Err(Error::InvalidAmount)
    );
}

#[test]
fn a_remainder_that_does_not_fit_is_rejected() {
    let mut env = setup();
    env.refunds.set(
        payment_ref(1),
        RefundRecord {
            payment_amount: i128::MAX,
            amount_refunded: -1,
            paid_at_ledger: 0,
            ledger: 0,
        },
    );
    advance_past_delay(&mut env, 0);
    assert_eq!(
        sweep_dust(&mut env, payment_ref(1)),
        Err(Error::MathOverflow)
    );
}

#[test]
fn a_sweep_needs_a_treasury_a_token_and_a_float() {
    let mut env = setup();
    let pref = payment_ref(1);
    refund(&mut env, pref, PAYMENT - 5);
    advance_past_delay(&mut env, 10);

    env.fee_recipient = Some(VAULT);
    assert_eq!(sweep_dust(&mut env, pref), Err(Error::SelfTransfer));
    env.fee_recipient = None;
    env.token = None;
    assert_eq!(sweep_dust(&mut env, pref), Err(Error::NotInitialized));
    env.token = Some(TOKEN);
    env.float = 4;
    assert_eq!(sweep_dust(&mut env, pref), Err(Error::InsufficientFloat));
    env.float = 5;
    assert_eq!(sweep_dust(&mut env, pref), Ok(5));
}

#[test]
fn nothing_left_needs_neither_token_nor_float() {
    let mut env = setup();
    let pref = payment_ref(1);
    refund(&mut env, pref, PAYMENT);
    advance_past_delay(&mut env, 10);
    env.fee_recipient = Some(VAULT);
    env.token = None;
    env.float = 0;
    assert_eq!(sweep_dust(&mut env, pref), Ok(0));
}

#[test]
fn an_escrow_closes_at_the_later_of_window_and_refund() {
    let record = RefundRecord {
        payment_amount: 1,
        amount_refunded: 1,
        paid_at_ledger: 50,
        ledger: 70,
    };
    assert_eq!(closed_at(&record, 0), 70);
    assert_eq!(closed_at(&record, 20), 70);
    assert_eq!(closed_at(&record, 21), 71);
    assert_eq!(closed_at(&record, u32::MAX), u32::MAX);
}

#[test]
fn an_escrow_that_never_closes_is_never_swept() {
    let mut env = setup();
    env.refund_window = Some(u32::MAX);
    let pref = payment_ref(1);
    refund(&mut env, pref, PAYMENT - 1);
    env.sequence = u32::MAX;
    assert_eq!(sweep_dust(&mut env, pref), Err(Error::TimelockNotExpired));
}

#[test]
fn no_window_counts_as_zero() {
    let mut env = setup();
    env.refund_window = None;
    let pref = payment_ref(1);
    refund(&mut env, pref, PAYMENT - 1);
    env.sequence = 10 + DUST_SWEEP_DELAY_LEDGERS;
    assert_eq!(sweep_dust(&mut env, pref), Err(Error::TimelockNotExpired));
    env.sequence = 10 + DUST_SWEEP_DELAY_LEDGERS + 1;
    assert_eq!(sweep_dust(&mut env, pref), Ok(1));
}

#[test]
fn a_sweep_leaves_the_other_records() {
    let mut env = setup();
    refund(&mut env, payment_ref(1), PAYMENT - 1);
    refund(&mut env, payment_ref(2), PAYMENT - 2);
    refund(&mut env, payment_ref(3), PAYMENT - 3);
    advance_past_delay(&mut env, 10);
    assert_eq!(sweep_dust(&mut env, payment_ref(2)), Ok(2));
    assert!(env.refunds.get(&payment_ref(1)).is_some());
    assert!(env.refunds.get(&payment_ref(2)).is_none());
    assert!(env.refunds.get(&payment_ref(3)).is_some());
}

#[test]
fn the_treasury_falls_back_step_by_step() {
    let other = Address::Account([5; 32]);
    assert_eq!(active_fee_recipient(None, MERCHANT), MERCHANT);
    assert_eq!(active_fee_recipient(Some(other), MERCHANT), other);

    let mut env = setup();
    assert_eq!(dust_treasury(&env), MERCHANT);
    env.fee_recipient = Some(other);
    assert_eq!(dust_treasury(&env), other);
    env.dust_treasury = Some(TREASURY);
    assert_eq!(dust_treasury(&env), TREASURY);
}

#[test]
fn an_unauthorized_vault_call_changes_nothing() {
    let mut env = setup();
    let pref = payment_ref(1);
    refund(&mut env, pref, PAYMENT - 5);
    advance_past_delay(&mut env, 10);
    env.auths = vec![TREASURY];
    let before = env.clone();
    assert_eq!(try_set_dust_config(&mut env, 5, TREASURY), None);
    assert_eq!(try_sweep_dust(&mut env, pref), None);
    assert_eq!(env, before);

    // What comes before the authorization is answered without it.
    env.paused = Some(true);
    assert_eq!(try_sweep_dust(&mut env, pref), Some(Err(Error::Paused)));
    env.paused = None;
    env.auths.push(MERCHANT);
    assert_eq!(try_sweep_dust(&mut env, pref), Some(Ok(5)));
    assert_eq!(try_set_dust_config(&mut env, 5, TREASURY), Some(Ok(())));
    env.admin = None;
    assert_eq!(
        try_set_dust_config(&mut env, 5, TREASURY),
        Some(Err(Error::NotInitialized))
    );
}
