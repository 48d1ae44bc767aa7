//! What each call on the vault's dust answers and leaves behind, in terms of
//! the values that stand in storage and in the call's own arguments.

use vstd::prelude::*;

use crate::address::Address;
use crate::dust;
use crate::dust::{DataKey, DustSweptEvent, Effect, RefundRecord, VaultEnv, VaultEnvView};
use crate::error::Error;
use crate::sorted_map;
use crate::token::Transfer;

verus! {

/// Nothing precludes a sweep: the lock was had, the contract is not paused, and
/// it has an admin.
pub open spec fn in_service(env: VaultEnvView) -> bool {
    &&& env.lock_refusal is None
    &&& env.paused != Some(true)
    &&& env.admin is Some
}

/// The threshold is the configured one or, where none is configured, 100.
pub proof fn law_threshold(env: VaultEnvView)
    ensures
        dust::threshold(env) == match env.dust_threshold {
            Some(threshold) => threshold as int,
            None => 100,
        },
{
}

/// An escrow closes at the end of its window or at its last refund, whichever
/// is later, as far as ledgers can be numbered.
pub proof fn law_closing_ledger(record: RefundRecord, window: u32)
    ensures
        dust::closing_ledger(record, window) >= record.ledger,
        record.paid_at_ledger + window <= u32::MAX ==> {
            &&& dust::closing_ledger(record, window) >= record.paid_at_ledger + window
            &&& dust::closing_ledger(record, window) == record.ledger || dust::closing_ledger(
                record,
                window,
            ) == record.paid_at_ledger + window
        },
        record.paid_at_ledger + window > u32::MAX ==> dust::closing_ledger(record, window)
            == u32::MAX,
{
}

/// A record is due exactly when more than 1,555,200 ledgers have gone by both
/// since the end of its refund window, which is 0 where none is configured, and
/// since its last refund.
pub proof fn law_due(env: VaultEnvView, record: RefundRecord)
    ensures
        ({
            let window = match env.refund_window {
                Some(window) => window as int,
                None => 0,
            };
            &&& dust::window(env) == window
            &&& dust::sweepable(env, record) <==> {
                &&& env.sequence > record.paid_at_ledger + window + 1_555_200
                &&& env.sequence > record.ledger + 1_555_200
            }
        }),
{
}

/// What precludes a sweep before the admin is asked: a lock that was refused,
/// with its own error, then a pause, then a missing admin.
pub proof fn law_sweep_refused_unasked(env: VaultEnvView)
    ensures
        ({
            let refusal = dust::sweep_precluded(env);
            &&& refusal is None <==> in_service(env)
            &&& env.lock_refusal is Some ==> refusal == env.lock_refusal
            &&& env.lock_refusal is None && env.paused == Some(true) ==> refusal == Some(
                Error::Paused,
            )
            &&& env.lock_refusal is None && env.paused != Some(true) && env.admin is None
                ==> refusal == Some(Error::NotInitialized)
        }),
        dust::sweep_authorized(env) <==> (in_service(env) ==> env.auths.contains(env.admin->0)),
{
}

/// A sweep is done exactly when nothing precludes it, the record is stored, its
/// remainder is at least 0 and strictly below the threshold, more than the delay
/// has gone by both since the end of its window and since its last refund, and,
/// where the remainder is positive, the treasury is not the vault, there is a
/// token, and the float covers the remainder. What is swept is the remainder.
pub proof fn law_swept_iff(env: VaultEnvView, payment_ref: [u8; 32])
    ensures
        ({
            let record = env.refunds[payment_ref];
            let left = record.payment_amount - record.amount_refunded;
            let most = match env.dust_threshold {
                Some(threshold) => threshold as int,
                None => 100,
            };
            let window = match env.refund_window {
                Some(window) => window as int,
                None => 0,
            };
            let to = match (env.dust_treasury, env.fee_recipient) {
                (Some(treasury), _) => treasury,
                (None, Some(recipient)) => recipient,
                (None, None) => env.admin->0,
            };
            let answer = dust::sweep_result(env, payment_ref);
            &&& answer is Ok <==> {
                &&& in_service(env)
                &&& env.refunds.contains_key(payment_ref)
                &&& 0 <= left
                &&& left < most
                &&& env.sequence > record.paid_at_ledger + window + 1_555_200
                &&& env.sequence > record.ledger + 1_555_200
                &&& left > 0 ==> to != env.contract && env.token is Some && env.float >= left
            }
            &&& answer is Ok ==> answer->Ok_0 == left
        }),
{
}

/// Which refusal a sweep answers with. Each comes where none of those before it
/// does.
pub proof fn law_sweep_refusals(env: VaultEnvView, payment_ref: [u8; 32])
    ensures
        ({
            let record = env.refunds[payment_ref];
            let left = record.payment_amount - record.amount_refunded;
            let most = match env.dust_threshold {
                Some(threshold) => threshold as int,
                None => 100,
            };
            let window = match env.refund_window {
                Some(window) => window as int,
                None => 0,
            };
            let to = match (env.dust_treasury, env.fee_recipient) {
                (Some(treasury), _) => treasury,
                (None, Some(recipient)) => recipient,
                (None, None) => env.admin->0,
            };
            let answer = dust::sweep_result(env, payment_ref);
            let stored = in_service(env) && env.refunds.contains_key(payment_ref);
            let dust = stored && 0 <= left && left < most && i128::MIN <= left <= i128::MAX;
            let due = env.sequence > record.paid_at_ledger + window + 1_555_200 && env.sequence
                > record.ledger + 1_555_200;
            &&& env.lock_refusal is Some ==> answer == Err::<i128, Error>(env.lock_refusal->0)
            &&& env.lock_refusal is None && env.paused == Some(true) ==> answer == Err::<
                i128,
                Error,
            >(Error::Paused)
            &&& env.lock_refusal is None && env.paused != Some(true) && env.admin is None ==> answer
                == Err::<i128, Error>(Error::NotInitialized)
            &&& in_service(env) && !env.refunds.contains_key(payment_ref) ==> answer == Err::<
                i128,
                Error,
            >(Error::RefundNotFound)
            &&& stored && (left < i128::MIN || left > i128::MAX) ==> answer == Err::<i128, Error>(
                Error::MathOverflow,
            )
            &&& stored && i128::MIN <= left <= i128::MAX && (left < 0 || left >= most) ==> answer
                == Err::<i128, Error>(Error::InvalidAmount)
            &&& dust && !due ==> answer == Err::<i128, Error>(Error::TimelockNotExpired)
            &&& dust && due && left > 0 && to == env.contract ==> answer == Err::<i128, Error>(
                Error::SelfTransfer,
            )
            &&& dust && due && left > 0 && to != env.contract && env.token is None ==> answer
                == Err::<i128, Error>(Error::NotInitialized)
            &&& dust && due && left > 0 && to != env.contract && env.token is Some && env.float
                < left ==> answer == Err::<i128, Error>(Error::InsufficientFloat)
        }),
{
}

/// A quote answers as the sweep does, but for a float that is too small, which
/// it does not look at.
pub proof fn law_quote(env: VaultEnvView, payment_ref: [u8; 32])
    ensures
        ({
            let covered = VaultEnvView { float: i128::MAX, ..env };
            dust::quote(env, payment_ref) == dust::sweep_result(covered, payment_ref)
        }),
        dust::sweep_result(env, payment_ref) is Ok ==> dust::quote(env, payment_ref)
            == dust::sweep_result(env, payment_ref),
{
}

/// What a sweep leaves: the record is gone, and the ledger has to transfer the
/// remainder to the treasury where it is positive, remove the record, announce
/// it and give the lock back, in this order. Nothing else changes.
pub proof fn law_sweep_effect(env: VaultEnvView, payment_ref: [u8; 32])
    requires
        dust::sweep_result(env, payment_ref) is Ok,
    ensures
        ({
            let after = dust::swept(env, payment_ref);
            let record = env.refunds[payment_ref];
            let left = record.payment_amount - record.amount_refunded;
            let to = match (env.dust_treasury, env.fee_recipient) {
                (Some(treasury), _) => treasury,
                (None, Some(recipient)) => recipient,
                (None, None) => env.admin->0,
            };
            let moved = if left > 0 {
                env.effects.push(
                    Effect::Transfer(
                        Transfer {
                            token: env.token->0,
                            from: env.contract,
                            to,
                            amount: left as i128,
                        },
                    ),
                )
            } else {
                env.effects
            };
            &&& after.effects == moved.push(Effect::Remove(DataKey::RefundV2(payment_ref))).push(
                Effect::Swept(
                    DustSweptEvent { payment_ref, amount: left as i128, treasury: to },
                ),
            ).push(Effect::ReleaseLock)
            &&& after.refunds == env.refunds.remove(payment_ref)
            &&& after.contract == env.contract
            &&& after.sequence == env.sequence
            &&& after.auths == env.auths
            &&& after.lock_refusal == env.lock_refusal
            &&& after.paused == env.paused
            &&& after.admin == env.admin
            &&& after.token == env.token
            &&& after.dust_threshold == env.dust_threshold
            &&& after.dust_treasury == env.dust_treasury
            &&& after.fee_recipient == env.fee_recipient
            &&& after.refund_window == env.refund_window
            &&& after.float == env.float
        }),
{
    let after = dust::swept(env, payment_ref);
    let record = env.refunds[payment_ref];
    let left = record.payment_amount - record.amount_refunded;
    let to = dust::treasury(env);
    let moved = if left > 0 {
        env.effects.push(
            Effect::Transfer(
                Transfer {
                    token: env.token->0,
                    from: env.contract,
                    to,
                    amount: left as i128,
                },
            ),
        )
    } else {
        env.effects
    };
    assert(after.effects =~= moved.push(Effect::Remove(DataKey::RefundV2(payment_ref))).push(
        Effect::Swept(DustSweptEvent { payment_ref, amount: left as i128, treasury: to }),
    ).push(Effect::ReleaseLock));
}

/// A configuration is taken exactly when there is an admin, the threshold is
/// positive and the treasury is not the vault; each refusal comes on what it
/// says, in this order.
pub proof fn law_configuration_answer(env: VaultEnvView, threshold: i128, treasury: Address)
    ensures
        ({
            let answer = dust::config_result(env, threshold, treasury);
            &&& env.admin is None ==> answer == Err::<(), Error>(Error::NotInitialized)
            &&& env.admin is Some && threshold <= 0 ==> answer == Err::<(), Error>(
                Error::InvalidAmount,
            )
            &&& env.admin is Some && threshold > 0 && treasury == env.contract ==> answer == Err::<
                (),
                Error,
            >(Error::SelfTransfer)
            &&& env.admin is Some && threshold > 0 && treasury != env.contract ==> answer == Ok::<
                (),
                Error,
            >(())
        }),
        dust::config_authorized(env) <==> (env.admin is Some ==> env.auths.contains(env.admin->0)),
{
}

/// What a configuration leaves: the two values, and their writes. Nothing else
/// changes.
pub proof fn law_configuration_effect(env: VaultEnvView, threshold: i128, treasury: Address)
    ensures
        ({
            let after = dust::configured(env, threshold, treasury);
            &&& after.dust_threshold == Some(threshold)
            &&& after.dust_treasury == Some(treasury)
            &&& after.effects == env.effects.push(Effect::Write(DataKey::DustThreshold)).push(
                Effect::Write(DataKey::DustTreasury),
            )
            &&& after.contract == env.contract
            &&& after.sequence == env.sequence
            &&& after.auths == env.auths
            &&& after.lock_refusal == env.lock_refusal
            &&& after.paused == env.paused
            &&& after.admin == env.admin
            &&& after.token == env.token
            &&& after.fee_recipient == env.fee_recipient
            &&& after.refund_window == env.refund_window
            &&& after.refunds == env.refunds
            &&& after.float == env.float
        }),
{
    assert(dust::configured(env, threshold, treasury).effects =~= env.effects.push(
        Effect::Write(DataKey::DustThreshold),
    ).push(Effect::Write(DataKey::DustTreasury)));
}

/// The view of a call's surroundings tells every field.
pub proof fn law_vault_told(env: VaultEnv, i: int)
    requires
        env.wf(),
    ensures
        env@.contract == env.contract,
        env@.sequence == env.sequence,
        env@.auths == env.auths@,
        env@.lock_refusal == env.lock_refusal,
        env@.paused == env.paused,
        env@.admin == env.admin,
        env@.token == env.token,
        env@.dust_threshold == env.dust_threshold,
        env@.dust_treasury == env.dust_treasury,
        env@.fee_recipient == env.fee_recipient,
        env@.refund_window == env.refund_window,
        env@.float == env.float,
        env@.effects == env.effects@,
        0 <= i < env.refunds@.len() ==> {
            let (payment_ref, record) = env.refunds@[i];
            env@.refunds.contains_key(payment_ref) && env@.refunds[payment_ref] == record
        },
        forall|payment_ref: [u8; 32]| #[trigger]
            env@.refunds.contains_key(payment_ref) ==> exists|k: int|
                0 <= k < env.refunds@.len() && (#[trigger] env.refunds@[k]).0 == payment_ref,
{
    if 0 <= i < env.refunds@.len() {
        sorted_map::lemma_lookup_at(env.refunds@, i);
    }
    assert forall|payment_ref: [u8; 32]| #[trigger]
        env@.refunds.contains_key(payment_ref) implies exists|k: int|
        0 <= k < env.refunds@.len() && (#[trigger] env.refunds@[k]).0 == payment_ref by {
        let k = choose|k: int| sorted_map::entry_at(env.refunds@, payment_ref, k);
        assert(env.refunds@[k].0 == payment_ref);
    }
}

/// All that is asked of a call's surroundings: refund records stand in the order
/// of their references, and, where the treasury is asked for, one is configured,
/// or a fee recipient is, or the merchant is known.
pub proof fn law_what_is_asked(env: VaultEnv)
    ensures
        env.wf() <==> sorted_map::sorted(env.refunds@),
        dust::has_treasury(env@) <==> !(env.dust_treasury is None && env.fee_recipient is None
            && env.admin is None),
{
}

/// What is left of a payment is what was paid and not refunded.
pub proof fn law_residual(record: RefundRecord)
    ensures
        dust::residual(record) + record.amount_refunded == record.payment_amount,
{
}

} // verus!
