//! Dust sweep for orphaned refund escrows.
//!
//! Every payment the vault refunds against keeps a cumulative
//! [`RefundRecord`] whose unrefunded remainder is `payment_amount -
//! amount_refunded`. Once the refund escrow for that payment has closed and
//! stayed closed for [`DUST_SWEEP_DELAY_LEDGERS`] (~90 days), a remainder
//! strictly below the configured dust threshold (rounding leftovers) can no
//! longer be claimed in practice. `sweep_dust` moves that remainder to the
//! designated treasury and deletes the record, reclaiming its storage.
//!
//! An escrow is considered closed at `max(paid_at_ledger + refund_window,
//! last_refund_ledger)`: the refund window has elapsed *and* no refund has
//! been processed since. With `refund_window == 0` (no window) the escrow
//! closes at its last refund.
//!
//! A call works on a [`VaultEnv`]: what the contract finds in its storage and
//! on the ledger. What the ledger has to do on its account is appended to
//! [`VaultEnv::effects`], in order; a refused call changes nothing.

use vstd::prelude::*;

use crate::address::{same_address, Address};
use crate::auth::{has_authorized, require_auth};
use crate::error::Error;
use crate::sorted_map::SortedMap;
use crate::token::Transfer;

verus! {

/// Default dust threshold in the token's smallest unit (stroops for XLM).
pub const DEFAULT_DUST_THRESHOLD: i128 = 100;

/// Ledgers an escrow must stay closed before its dust may be swept:
/// 90 days at ~5 seconds per ledger (90 * 17_280).
pub const DUST_SWEEP_DELAY_LEDGERS: u32 = 1_555_200;

/// Emitted when a refund record's dust is swept to the treasury.
#[derive(Clone, Copy, Debug, PartialEq, Eq)]
pub struct DustSweptEvent {
    pub payment_ref: [u8; 32],
    /// Residual amount transferred to the treasury (`0` for a fully
    /// refunded record, which is only reclaimed).
    pub amount: i128,
    pub treasury: Address,
}

/// What was refunded of a payment so far.
#[derive(Clone, Copy, Debug, PartialEq, Eq)]
pub struct RefundRecord {
    pub payment_amount: i128,
    pub amount_refunded: i128,
    /// Ledger at which the payment was made.
    pub paid_at_ledger: u32,
    /// Ledger at which the last refund was processed.
    pub ledger: u32,
}

/// Under what the contract's storage keeps a value.
#[derive(Clone, Copy, Debug, PartialEq, Eq)]
pub enum DataKey {
    Admin,
    Token,
    IsPaused,
    RefundWindow,
    DustThreshold,
    DustTreasury,
    RefundV2([u8; 32]),
}

/// Something that the ledger has to do on the contract's account.
#[derive(Clone, Copy, Debug, PartialEq, Eq)]
pub enum Effect {
    /// Write the value that now stands under the key.
    Write(DataKey),
    /// Remove the persistent entry under the key.
    Remove(DataKey),
    /// Ask a token contract for a transfer.
    Transfer(Transfer),
    /// Publish an event.
    Swept(DustSweptEvent),
    /// Give the reentrancy lock back.
    ReleaseLock,
}

/// What a call finds around the contract.
#[derive(Clone, Debug, PartialEq, Eq)]
pub struct VaultEnv {
    /// The contract's own address.
    pub contract: Address,
    /// The sequence number of the current ledger.
    pub sequence: u32,
    /// The addresses that authorized the call.
    pub auths: Vec<Address>,
    /// Why the reentrancy lock was refused, if it was.
    pub lock_refusal: Option<Error>,
    pub paused: Option<bool>,
    /// The merchant, once the contract is initialized.
    pub admin: Option<Address>,
    pub token: Option<Address>,
    pub dust_threshold: Option<i128>,
    pub dust_treasury: Option<Address>,
    /// The recipient of fees, where one is configured.
    pub fee_recipient: Option<Address>,
    /// The refund window, in ledgers.
    pub refund_window: Option<u32>,
    /// The stored refund records, by the reference of the payment.
    pub refunds: SortedMap<[u8; 32], RefundRecord>,
    /// What the contract holds of its token.
    pub float: i128,
    /// What the ledger has to do, in order.
    pub effects: Vec<Effect>,
}

/// What a [`VaultEnv`] says.
#[verifier::ext_equal]
pub struct VaultEnvView {
    pub contract: Address,
    pub sequence: u32,
    pub auths: Seq<Address>,
    pub lock_refusal: Option<Error>,
    pub paused: Option<bool>,
    pub admin: Option<Address>,
    pub token: Option<Address>,
    pub dust_threshold: Option<i128>,
    pub dust_treasury: Option<Address>,
    pub fee_recipient: Option<Address>,
    pub refund_window: Option<u32>,
    pub refunds: Map<[u8; 32], RefundRecord>,
    pub float: i128,
    pub effects: Seq<Effect>,
}

impl View for VaultEnv {
    type V = VaultEnvView;

    open spec fn view(&self) -> VaultEnvView {
        VaultEnvView {
            contract: self.contract,
            sequence: self.sequence,
            auths: self.auths@,
            lock_refusal: self.lock_refusal,
            paused: self.paused,
            admin: self.admin,
            token: self.token,
            dust_threshold: self.dust_threshold,
            dust_treasury: self.dust_treasury,
            fee_recipient: self.fee_recipient,
            refund_window: self.refund_window,
            refunds: self.refunds.to_map(),
            float: self.float,
            effects: self.effects@,
        }
    }
}

impl VaultEnv {
    /// The refund records are in order.
    pub open spec fn wf(self) -> bool {
        self.refunds.wf()
    }
}

/// The dust threshold in effect.
pub open spec fn threshold(env: VaultEnvView) -> i128 {
    match env.dust_threshold {
        Some(threshold) => threshold,
        None => DEFAULT_DUST_THRESHOLD,
    }
}

pub fn dust_threshold(env: &VaultEnv) -> (threshold: i128)
    ensures
        threshold == self::threshold(env@),
{
    match env.dust_threshold {
        Some(threshold) => threshold,
        None => DEFAULT_DUST_THRESHOLD,
    }
}

/// The recipient of fees in effect: the configured one, falling back to the
/// merchant.
pub fn active_fee_recipient(stored: Option<Address>, merchant: Address) -> (recipient: Address)
    ensures
        recipient == match stored {
            Some(address) => address,
            None => merchant,
        },
{
    match stored {
        Some(address) => address,
        None => merchant,
    }
}

/// A treasury can be told: one is configured, or a fee recipient is, or the
/// merchant is known.
pub open spec fn has_treasury(env: VaultEnvView) -> bool {
    env.dust_treasury is Some || env.fee_recipient is Some || env.admin is Some
}

/// The treasury in effect.
pub open spec fn treasury(env: VaultEnvView) -> Address {
    match env.dust_treasury {
        Some(treasury) => treasury,
        None => match env.fee_recipient {
            Some(recipient) => recipient,
            None => env.admin->0,
        },
    }
}

/// The treasury receiving swept dust: the configured dust treasury, falling
/// back to the fee recipient (and from there to the merchant).
pub fn dust_treasury(env: &VaultEnv) -> (treasury: Address)
    requires
        has_treasury(env@),
    ensures
        treasury == self::treasury(env@),
{
    match (env.dust_treasury, env.fee_recipient, env.admin) {
        (Some(treasury), _, _) => treasury,
        (None, stored, Some(merchant)) => active_fee_recipient(stored, merchant),
        (None, Some(recipient), None) => recipient,
        (None, None, None) => vstd::pervasive::unreached(),
    }
}

/// The admin, once the contract is initialized.
pub fn admin(env: &VaultEnv) -> (admin: Result<Address, Error>)
    ensures
        admin == match env@.admin {
            Some(admin) => Ok::<Address, Error>(admin),
            None => Err(Error::NotInitialized),
        },
{
    match env.admin {
        Some(admin) => Ok(admin),
        None => Err(Error::NotInitialized),
    }
}

/// What `set_dust_config` returns.
pub open spec fn config_result(env: VaultEnvView, threshold: i128, treasury: Address) -> Result<
    (),
    Error,
> {
    if env.admin is None {
        Err(Error::NotInitialized)
    } else if threshold <= 0 {
        Err(Error::InvalidAmount)
    } else if treasury == env.contract {
        Err(Error::SelfTransfer)
    } else {
        Ok(())
    }
}

/// `env` after a successful `set_dust_config`.
pub open spec fn configured(
    env: VaultEnvView,
    threshold: i128,
    treasury: Address,
) -> VaultEnvView {
    VaultEnvView {
        dust_threshold: Some(threshold),
        dust_treasury: Some(treasury),
        effects: env.effects + seq![
            Effect::Write(DataKey::DustThreshold),
            Effect::Write(DataKey::DustTreasury),
        ],
        ..env
    }
}

/// Configures the dust threshold and the treasury (admin only). The call traps
/// unless the admin authorized it; [`try_set_dust_config`] is for calls of which
/// that is not known.
pub fn set_dust_config(env: &mut VaultEnv, threshold: i128, treasury: Address) -> (outcome: Result<
    (),
    Error,
>)
    requires
        old(env).wf(),
        config_authorized(old(env)@),
    ensures
        final(env).wf(),
        outcome == config_result(old(env)@, threshold, treasury),
        outcome is Ok ==> final(env)@ == configured(old(env)@, threshold, treasury),
        outcome is Err ==> *final(env) == *old(env),
{
    match admin(env) {
        Err(error) => {
            return Err(error);
        },
        Ok(admin) => require_auth(&env.auths, &admin),
    }
    if threshold <= 0 {
        return Err(Error::InvalidAmount);
    }
    if same_address(&treasury, &env.contract) {
        return Err(Error::SelfTransfer);
    }
    let ghost goal = configured(env@, threshold, treasury);
    env.dust_threshold = Some(threshold);
    env.dust_treasury = Some(treasury);
    env.effects.push(Effect::Write(DataKey::DustThreshold));
    env.effects.push(Effect::Write(DataKey::DustTreasury));
    assert(env@ =~= goal);
    Ok(())
}

/// The admin, where there is one, authorized the call.
pub open spec fn config_authorized(env: VaultEnvView) -> bool {
    env.admin matches Some(admin) ==> env.auths.contains(admin)
}

/// [`set_dust_config`] for any call: `None` is the trap that a call runs into
/// that the admin did not authorize.
pub fn try_set_dust_config(env: &mut VaultEnv, threshold: i128, treasury: Address) -> (outcome:
    Option<Result<(), Error>>)
    requires
        old(env).wf(),
    ensures
        final(env).wf(),
        outcome == if config_authorized(old(env)@) {
            Some(config_result(old(env)@, threshold, treasury))
        } else {
            None::<Result<(), Error>>
        },
        outcome == Some(Ok::<(), Error>(())) ==> final(env)@ == configured(
            old(env)@,
            threshold,
            treasury,
        ),
        outcome != Some(Ok::<(), Error>(())) ==> *final(env) == *old(env),
{
    match env.admin {
        Some(admin) => if !has_authorized(&env.auths, &admin) {
            return None;
        },
        None => {},
    }
    Some(set_dust_config(env, threshold, treasury))
}

/// Ledger at which the escrow for `record` closed: the later of the end of its
/// refund window and its last refund.
pub open spec fn closing_ledger(record: RefundRecord, window: u32) -> u32 {
    let window_end = record.paid_at_ledger.saturating_add(window);
    if window_end >= record.ledger {
        window_end
    } else {
        record.ledger
    }
}

/// Ledger at which the escrow for `record` closed.
pub fn closed_at(record: &RefundRecord, window: u32) -> (ledger: u32)
    ensures
        ledger == closing_ledger(*record, window),
{
    let window_end: u32 = record.paid_at_ledger.saturating_add(window);
    if window_end >= record.ledger {
        window_end
    } else {
        record.ledger
    }
}

/// The refund window in effect.
pub open spec fn window(env: VaultEnvView) -> u32 {
    match env.refund_window {
        Some(window) => window,
        None => 0,
    }
}

/// What is left of a payment.
pub open spec fn residual(record: RefundRecord) -> int {
    record.payment_amount - record.amount_refunded
}

/// The escrow for `record` has been closed for more than the sweep delay.
pub open spec fn sweepable(env: VaultEnvView, record: RefundRecord) -> bool {
    env.sequence > closing_ledger(record, window(env)).saturating_add(DUST_SWEEP_DELAY_LEDGERS)
}

/// Why `sweep_dust` is refused before the admin's authorization is asked for.
pub open spec fn sweep_precluded(env: VaultEnvView) -> Option<Error> {
    match env.lock_refusal {
        Some(error) => Some(error),
        None => if env.paused == Some(true) {
            Some(Error::Paused)
        } else if env.admin is None {
            Some(Error::NotInitialized)
        } else {
            None
        },
    }
}

/// The admin whose authorization `sweep_dust` asks for.
pub fn sweep_admin(env: &VaultEnv) -> (admin: Result<Address, Error>)
    ensures
        admin == match sweep_precluded(env@) {
            Some(error) => Err::<Address, Error>(error),
            None => Ok(env@.admin->0),
        },
{
    match env.lock_refusal {
        Some(error) => {
            return Err(error);
        },
        None => {},
    }
    let paused = match env.paused {
        Some(paused) => paused,
        None => false,
    };
    if paused {
        return Err(Error::Paused);
    }
    self::admin(env)
}

/// What becomes of an admin's request to sweep the dust of `payment_ref`, up to
/// the point where the float is looked at: the residual.
pub open spec fn quote(env: VaultEnvView, payment_ref: [u8; 32]) -> Result<i128, Error> {
    if sweep_precluded(env) is Some {
        Err(sweep_precluded(env)->0)
    } else if !env.refunds.contains_key(payment_ref) {
        Err(Error::RefundNotFound)
    } else {
        let record = env.refunds[payment_ref];
        let left = residual(record);
        if !(i128::MIN <= left <= i128::MAX) {
            Err(Error::MathOverflow)
        } else if left < 0 || left >= threshold(env) {
            Err(Error::InvalidAmount)
        } else if !sweepable(env, record) {
            Err(Error::TimelockNotExpired)
        } else if left > 0 && treasury(env) == env.contract {
            Err(Error::SelfTransfer)
        } else if left > 0 && env.token is None {
            Err(Error::NotInitialized)
        } else {
            Ok(left as i128)
        }
    }
}

/// The residual that `sweep_dust` would sweep, had the vault the float for it.
pub fn sweep_quote(env: &VaultEnv, payment_ref: &[u8; 32]) -> (left: Result<i128, Error>)
    requires
        env.wf(),
    ensures
        left == quote(env@, *payment_ref),
{
    match sweep_admin(env) {
        Err(error) => {
            return Err(error);
        },
        Ok(_) => {},
    }
    let record = match env.refunds.get(payment_ref) {
        None => {
            return Err(Error::RefundNotFound);
        },
        Some(record) => *record,
    };
    let left: i128 = match record.payment_amount.checked_sub(record.amount_refunded) {
        None => {
            return Err(Error::MathOverflow);
        },
        Some(left) => left,
    };
    if left < 0 || left >= dust_threshold(env) {
        return Err(Error::InvalidAmount);
    }
    let window: u32 = match env.refund_window {
        Some(window) => window,
        None => 0,
    };
    let eligible_after: u32 = closed_at(&record, window).saturating_add(DUST_SWEEP_DELAY_LEDGERS);
    if env.sequence <= eligible_after {
        return Err(Error::TimelockNotExpired);
    }
    if left > 0 {
        if same_address(&dust_treasury(env), &env.contract) {
            return Err(Error::SelfTransfer);
        }
        if env.token.is_none() {
            return Err(Error::NotInitialized);
        }
    }
    Ok(left)
}

/// What `sweep_dust` returns.
pub open spec fn sweep_result(env: VaultEnvView, payment_ref: [u8; 32]) -> Result<i128, Error> {
    match quote(env, payment_ref) {
        Err(error) => Err(error),
        Ok(left) => if left > 0 && env.float < left {
            Err(Error::InsufficientFloat)
        } else {
            Ok(left)
        },
    }
}

/// The transfer that sweeps `left`, where there is anything to sweep.
pub open spec fn sweep_transfer(env: VaultEnvView, left: i128) -> Seq<Effect> {
    if left > 0 {
        seq![
            Effect::Transfer(
                Transfer {
                    token: env.token->0,
                    from: env.contract,
                    to: treasury(env),
                    amount: left,
                },
            ),
        ]
    } else {
        seq![]
    }
}

/// `env` after a successful `sweep_dust`.
pub open spec fn swept(env: VaultEnvView, payment_ref: [u8; 32]) -> VaultEnvView {
    let left = residual(env.refunds[payment_ref]) as i128;
    VaultEnvView {
        refunds: env.refunds.remove(payment_ref),
        effects: env.effects + sweep_transfer(env, left) + seq![
            Effect::Remove(DataKey::RefundV2(payment_ref)),
            Effect::Swept(DustSweptEvent { payment_ref, amount: left, treasury: treasury(env) }),
            Effect::ReleaseLock,
        ],
        ..env
    }
}

/// The admin authorized the call, where it comes to that.
pub open spec fn sweep_authorized(env: VaultEnvView) -> bool {
    sweep_precluded(env) is None ==> env.auths.contains(env.admin->0)
}

/// Moves the dust of `payment_ref` to the treasury and reclaims its record
/// (admin only). Returns what was moved. The call traps unless the admin
/// authorized it; [`try_sweep_dust`] is for calls of which that is not known.
pub fn sweep_dust(env: &mut VaultEnv, payment_ref: [u8; 32]) -> (outcome: Result<i128, Error>)
    requires
        old(env).wf(),
        sweep_authorized(old(env)@),
    ensures
        final(env).wf(),
        outcome == sweep_result(old(env)@, payment_ref),
        outcome is Ok ==> final(env)@ == swept(old(env)@, payment_ref),
        outcome is Err ==> *final(env) == *old(env),
{
    match sweep_admin(env) {
        Err(error) => {
            return Err(error);
        },
        Ok(admin) => require_auth(&env.auths, &admin),
    }
    let left: i128 = match sweep_quote(env, &payment_ref) {
        Err(error) => {
            return Err(error);
        },
        Ok(left) => left,
    };
    let ghost goal = swept(env@, payment_ref);
    let treasury = dust_treasury(env);
    if left > 0 {
        match env.token {
            Some(token) => {
                if env.float < left {
                    return Err(Error::InsufficientFloat);
                }
                env.effects.push(
                    Effect::Transfer(
                        Transfer { token, from: env.contract, to: treasury, amount: left },
                    ),
                );
            },
            None => {
                return Err(Error::NotInitialized);
            },
        }
    }
    env.refunds.remove(&payment_ref);
    env.effects.push(Effect::Remove(DataKey::RefundV2(payment_ref)));
    env.effects.push(Effect::Swept(DustSweptEvent { payment_ref, amount: left, treasury }));
    env.effects.push(Effect::ReleaseLock);
    assert(env@.effects =~= goal.effects);
    assert(env@ =~= goal);
    Ok(left)
}

/// [`sweep_dust`] for any call: `None` is the trap that a call runs into that
/// the admin did not authorize.
pub fn try_sweep_dust(env: &mut VaultEnv, payment_ref: [u8; 32]) -> (outcome: Option<
    Result<i128, Error>,
>)
    requires
        old(env).wf(),
    ensures
        final(env).wf(),
        outcome == if sweep_authorized(old(env)@) {
            Some(sweep_result(old(env)@, payment_ref))
        } else {
            None::<Result<i128, Error>>
        },
        outcome is Some && outcome->0 is Ok ==> final(env)@ == swept(old(env)@, payment_ref),
        !(outcome is Some && outcome->0 is Ok) ==> *final(env) == *old(env),
{
    match sweep_admin(env) {
        Ok(admin) => if !has_authorized(&env.auths, &admin) {
            return None;
        },
        Err(_) => {},
    }
    Some(sweep_dust(env, payment_ref))
}

/// The treasury is the configured one, else the fee recipient, else the
/// merchant.
pub proof fn law_treasury_fallback(env: VaultEnvView)
    ensures
        env.dust_treasury matches Some(configured) ==> treasury(env) == configured,
        env.dust_treasury is None && env.fee_recipient is Some ==> Some(treasury(env))
            == env.fee_recipient,
        env.dust_treasury is None && env.fee_recipient is None && env.admin is Some ==> Some(
            treasury(env),
        ) == env.admin,
{
}

/// A record is sweepable exactly when more than the sweep delay has gone by
/// both since its refund window ended and since its last refund.
pub proof fn law_sweepable_iff(env: VaultEnvView, record: RefundRecord)
    ensures
        sweepable(env, record) <==> {
            &&& env.sequence > record.paid_at_ledger + window(env) + DUST_SWEEP_DELAY_LEDGERS
            &&& env.sequence > record.ledger + DUST_SWEEP_DELAY_LEDGERS
        },
{
}

/// With no refund window, an escrow closes at its last refund.
pub proof fn law_no_window_closes_at_last_refund(record: RefundRecord)
    requires
        record.paid_at_ledger <= record.ledger,
    ensures
        closing_ledger(record, 0) == record.ledger,
{
}

/// A refund processed at a later ledger restarts the delay: the record cannot
/// be swept before the delay has gone by since that refund.
pub proof fn law_refund_restarts_delay(
    env: VaultEnvView,
    record: RefundRecord,
    refunded: RefundRecord,
)
    requires
        refunded.paid_at_ledger == record.paid_at_ledger,
        refunded.ledger >= record.ledger,
    ensures
        closing_ledger(refunded, window(env)) >= closing_ledger(record, window(env)),
        sweepable(env, refunded) ==> sweepable(env, record),
        env.sequence <= refunded.ledger + DUST_SWEEP_DELAY_LEDGERS ==> !sweepable(env, refunded),
{
}

/// Only dust is swept, and only when it is due: what `sweep_dust` moves is the
/// whole remainder of a stored record, it is below the threshold, and the
/// escrow has been closed for longer than the delay.
pub proof fn law_only_due_dust_is_swept(env: VaultEnvView, payment_ref: [u8; 32])
    ensures
        sweep_result(env, payment_ref) matches Ok(left) ==> {
            let record = env.refunds[payment_ref];
            &&& env.refunds.contains_key(payment_ref)
            &&& left == record.payment_amount - record.amount_refunded
            &&& 0 <= left < threshold(env)
            &&& env.sequence > record.paid_at_ledger + window(env) + DUST_SWEEP_DELAY_LEDGERS
            &&& env.sequence > record.ledger + DUST_SWEEP_DELAY_LEDGERS
            &&& left > 0 ==> left <= env.float
        },
{
}

/// A sweep moves exactly the remainder, from the vault to a treasury other
/// than the vault, in the vault's own token; where nothing remains it moves
/// nothing.
pub proof fn law_sweep_moves_the_remainder(env: VaultEnvView, payment_ref: [u8; 32], i: int)
    requires
        sweep_result(env, payment_ref) is Ok,
        env.effects.len() <= i < swept(env, payment_ref).effects.len(),
    ensures
        ({
            let left = sweep_result(env, payment_ref)->Ok_0;
            &&& swept(env, payment_ref).effects[i] matches Effect::Transfer(transfer) ==> {
                &&& i == env.effects.len()
                &&& left > 0
                &&& env.token == Some(transfer.token)
                &&& transfer.from == env.contract
                &&& transfer.to == treasury(env)
                &&& transfer.to != env.contract
                &&& transfer.amount == left
            }
            &&& left > 0 ==> swept(env, payment_ref).effects[env.effects.len() as int] is Transfer
        }),
{
}

/// A swept record is gone, and no other is touched: the same sweep is refused
/// from then on.
pub proof fn law_swept_once(env: VaultEnvView, payment_ref: [u8; 32], later: VaultEnvView)
    requires
        sweep_result(env, payment_ref) is Ok,
        later.refunds == swept(env, payment_ref).refunds,
        sweep_precluded(later) is None,
    ensures
        sweep_result(later, payment_ref) == Err::<i128, Error>(Error::RefundNotFound),
        forall|other: [u8; 32]|
            other != payment_ref ==> (#[trigger] later.refunds.contains_key(other)
                == env.refunds.contains_key(other)) && (env.refunds.contains_key(other)
                ==> later.refunds[other] == env.refunds[other]),
{
}

/// What was configured is in effect: the threshold is positive, and no sweep is
/// pointed at the vault itself.
pub proof fn law_configuration_in_effect(
    env: VaultEnvView,
    amount: i128,
    to: Address,
    payment_ref: [u8; 32],
)
    requires
        config_result(env, amount, to) is Ok,
    ensures
        ({
            let after = configured(env, amount, to);
            &&& threshold(after) == amount
            &&& amount > 0
            &&& treasury(after) == to
            &&& to != env.contract
            &&& after.refunds == env.refunds
            &&& sweep_precluded(after) == sweep_precluded(env)
            &&& sweep_precluded(env) != Some(Error::SelfTransfer) ==> sweep_result(
                after,
                payment_ref,
            ) != Err::<i128, Error>(Error::SelfTransfer)
        }),
{
}

} // verus!
