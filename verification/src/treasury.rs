//! Owner management and ICRC-1 treasury functions.
//!
//! A canister stores its `owner` principal, lets the owner transfer ownership,
//! reports the canister's ICRC-1 token balance, and lets the owner withdraw
//! funds to an external account. The functions here decide which call goes to
//! the ledger and what its reply means; the caller makes the call.
//!
//! All functions take `caller` explicitly. It must come from a verified
//! canister call context, never from client-supplied request data.

use crate::numbers::{decimal, unsigned_value, Nat};
use crate::principal::Principal;
use crate::wire::{
    decode_nat, law_read_gives_what_was_written, lemma_nat_decoded, nat_decoded, nat_in,
    nat_message, never_nat,
};
use vstd::prelude::*;
use vstd::string::StringExecFns;

verus! {

/// An ICRC-1 ledger account.
#[derive(Clone, Debug, PartialEq, Eq)]
pub struct Account {
    /// Account owner principal.
    pub owner: Principal,
    /// Optional 32-byte subaccount.
    pub subaccount: Option<[u8; 32]>,
}

/// Errors returned by an ICRC-1 `icrc1_transfer` call.
#[derive(Clone, Debug, PartialEq, Eq)]
pub enum TransferError {
    /// The supplied fee does not match the ledger's current fee.
    BadFee { expected_fee: Nat },
    /// The burn amount is below the ledger minimum.
    BadBurn { min_burn_amount: Nat },
    /// The canister's account does not hold enough tokens.
    InsufficientFunds { balance: Nat },
    /// The transfer's `created_at_time` is too far in the past.
    TooOld,
    /// The transfer's `created_at_time` is in the future.
    CreatedInFuture { ledger_time: u64 },
    /// An identical transfer was already recorded.
    Duplicate { duplicate_of: Nat },
    /// The ledger is temporarily unavailable.
    TemporarilyUnavailable,
    /// Any other ledger error.
    GenericError { error_code: Nat, message: String },
}

/// Errors returned by treasury operations.
#[derive(Clone, Debug, PartialEq, Eq)]
pub enum TreasuryError {
    /// The caller is not the current canister owner.
    NotOwner,
    /// The ledger rejected the transfer.
    TransferFailed(TransferError),
    /// The ledger canister itself trapped (missing, out of cycles, ...).
    LedgerTrap(String),
}

/// `text` in double quotes, with the escapes that the standard library's `Debug`
/// gives a `str`.
pub uninterp spec fn quoted(text: Seq<char>) -> Seq<char>;

/// Calls `format!` with the standard library's `Debug` for `str`. Claimed: the
/// result depends on `text` alone.
#[verifier::external_body]
fn quote(text: &str) -> (result: String)
    ensures
        result@ == quoted(text@),
{
    format!("{:?}", text)
}

/// `before`, `middle` and `after`, one after the other.
fn joined(before: &str, middle: &str, after: &str) -> (text: String)
    ensures
        text@ == before@ + middle@ + after@,
{
    let mut text: String = before.to_owned();
    text.append(middle);
    text.append(after);
    text
}

/// The text of a generic error whose message in quotes is `quoted_message`.
pub open spec fn generic_error_text(error_code: nat, quoted_message: Seq<char>) -> Seq<char> {
    ("GenericError { error_code: Nat("@ + decimal(error_code) + "), message: "@) + quoted_message
        + " }"@
}

/// The text of a generic error whose message in quotes is `quoted_message`.
pub fn generic_error_message(error_code: &Nat, quoted_message: &str) -> (text: String)
    ensures
        text@ == generic_error_text(error_code@, quoted_message@),
{
    let front: String = joined(
        "GenericError { error_code: Nat(",
        error_code.to_decimal().as_str(),
        "), message: ",
    );
    joined(front.as_str(), quoted_message, " }")
}

impl TransferError {
    /// The variant with its fields.
    pub open spec fn text(self) -> Seq<char> {
        match self {
            TransferError::BadFee { expected_fee } => "BadFee { expected_fee: Nat("@ + decimal(
                expected_fee@,
            ) + ") }"@,
            TransferError::BadBurn { min_burn_amount } => "BadBurn { min_burn_amount: Nat("@
                + decimal(min_burn_amount@) + ") }"@,
            TransferError::InsufficientFunds { balance } => "InsufficientFunds { balance: Nat("@
                + decimal(balance@) + ") }"@,
            TransferError::TooOld => "TooOld"@,
            TransferError::CreatedInFuture { ledger_time } => "CreatedInFuture { ledger_time: "@
                + decimal(ledger_time as nat) + " }"@,
            TransferError::Duplicate { duplicate_of } => "Duplicate { duplicate_of: Nat("@
                + decimal(duplicate_of@) + ") }"@,
            TransferError::TemporarilyUnavailable => "TemporarilyUnavailable"@,
            TransferError::GenericError { error_code, message } => generic_error_text(
                error_code@,
                quoted(message@),
            ),
        }
    }

    /// The variant with its fields, as a text.
    pub fn message(&self) -> (message: String)
        ensures
            message@ == self.text(),
    {
        match self {
            TransferError::BadFee { expected_fee } => joined(
                "BadFee { expected_fee: Nat(",
                expected_fee.to_decimal().as_str(),
                ") }",
            ),
            TransferError::BadBurn { min_burn_amount } => joined(
                "BadBurn { min_burn_amount: Nat(",
                min_burn_amount.to_decimal().as_str(),
                ") }",
            ),
            TransferError::InsufficientFunds { balance } => joined(
                "InsufficientFunds { balance: Nat(",
                balance.to_decimal().as_str(),
                ") }",
            ),
            TransferError::TooOld => "TooOld".to_owned(),
            TransferError::CreatedInFuture { ledger_time } => joined(
                "CreatedInFuture { ledger_time: ",
                Nat::from(*ledger_time).to_decimal().as_str(),
                " }",
            ),
            TransferError::Duplicate { duplicate_of } => joined(
                "Duplicate { duplicate_of: Nat(",
                duplicate_of.to_decimal().as_str(),
                ") }",
            ),
            TransferError::TemporarilyUnavailable => "TemporarilyUnavailable".to_owned(),
            TransferError::GenericError { error_code, message } => generic_error_message(
                error_code,
                quote(message.as_str()).as_str(),
            ),
        }
    }
}

impl TreasuryError {
    /// The error as a text for humans.
    pub open spec fn text(self) -> Seq<char> {
        match self {
            TreasuryError::NotOwner => "caller is not the canister owner"@,
            TreasuryError::TransferFailed(error) => "ledger rejected transfer: "@ + error.text(),
            TreasuryError::LedgerTrap(message) => "ledger canister trapped: "@ + message@,
        }
    }

    /// The error as a text for humans.
    pub fn message(&self) -> (message: String)
        ensures
            message@ == self.text(),
    {
        match self {
            TreasuryError::NotOwner => "caller is not the canister owner".to_owned(),
            TreasuryError::TransferFailed(error) => {
                let mut text: String = "ledger rejected transfer: ".to_owned();
                text.append(error.message().as_str());
                text
            },
            TreasuryError::LedgerTrap(message) => {
                let mut text: String = "ledger canister trapped: ".to_owned();
                text.append(message.as_str());
                text
            },
        }
    }
}

/// Canister state holding the `owner` principal.
pub struct CanisterState {
    /// Principal allowed to manage ownership and withdraw funds.
    pub owner: Principal,
}

/// Handle used by the free functions in this module.
pub struct TreasuryContext {
    state: CanisterState,
}

impl View for TreasuryContext {
    type V = Seq<u8>;

    /// The owner.
    closed spec fn view(&self) -> Seq<u8> {
        self.state.owner@
    }
}

/// Creates the treasury state with `owner` as the initial owner.
///
/// The deployer is the natural choice.
pub fn init(owner: Principal) -> (context: TreasuryContext)
    ensures
        context@ == owner@,
{
    TreasuryContext { state: CanisterState { owner } }
}

/// Returns the current canister owner.
pub fn get_owner(context: &TreasuryContext) -> (owner: Principal)
    ensures
        owner@ == context@,
{
    context.state.owner
}

/// The owner after `caller` asked to make `new_owner` the owner.
pub open spec fn owner_after(owner: Seq<u8>, caller: Seq<u8>, new_owner: Seq<u8>) -> Seq<u8> {
    if caller == owner {
        new_owner
    } else {
        owner
    }
}

/// Transfers ownership to `new_owner`.
///
/// Only the current owner may call this; any other caller receives
/// [`TreasuryError::NotOwner`] and the owner is left unchanged.
pub fn set_owner(
    context: &mut TreasuryContext,
    caller: Principal,
    new_owner: Principal,
) -> (result: Result<(), TreasuryError>)
    ensures
        final(context)@ == owner_after(old(context)@, caller@, new_owner@),
        caller@ == old(context)@ ==> final(context)@ == new_owner@,
        caller@ != old(context)@ ==> final(context)@ == old(context)@,
        result == (if caller@ == old(context)@ {
            Ok(())
        } else {
            Err::<(), TreasuryError>(TreasuryError::NotOwner)
        }),
{
    if caller != context.state.owner {
        return Err(TreasuryError::NotOwner);
    }
    context.state.owner = new_owner;
    Ok(())
}

/// The call that asks a ledger for a balance: the method `method` of the
/// canister `ledger_id`, with `account` as its argument.
#[derive(Clone, Debug, PartialEq, Eq)]
pub struct BalanceCall {
    /// The ledger canister.
    pub ledger_id: Principal,
    /// The method that reports balances.
    pub method: &'static str,
    /// The account asked about.
    pub account: Account,
}

/// Asks for this canister's balance on an ICRC-1 ledger. The reply to the call
/// goes to [`balance_from_reply`].
///
/// Public read; any caller may use it.
pub fn get_treasury_balance(self_id: Principal, ledger_id: Principal) -> (call: BalanceCall)
    ensures
        call.ledger_id == ledger_id,
        call.method@ == "icrc1_balance_of"@,
        call.account == (Account { owner: self_id, subaccount: None }),
{
    BalanceCall {
        ledger_id,
        method: "icrc1_balance_of",
        account: Account { owner: self_id, subaccount: None },
    }
}

/// The balance that a ledger reported, zero if there is none.
pub fn balance_or_zero(reported: Option<Nat>) -> (balance: Nat)
    ensures
        reported matches Some(number) ==> balance == number,
        reported is None ==> balance@ == 0,
{
    match reported {
        Some(number) => number,
        None => Nat::from(0),
    }
}

/// The balance that the ledger's reply means. If the ledger canister traps or
/// does not exist, which `reply` then says in words, or if its reply is no
/// number, the balance is zero: a missing ledger is an empty treasury.
pub fn balance_from_reply(reply: Result<Vec<u8>, String>) -> (balance: Nat)
    ensures
        reply is Err ==> balance@ == 0,
        reply matches Ok(message) ==> (never_nat(message@) ==> balance@ == 0),
        reply matches Ok(message) ==> balance@ == 0 || balance@ == nat_in(message@),
        reply matches Ok(message) ==> exists|decoded: Option<Vec<u8>>| #[trigger]
            nat_decoded(message@, decoded) && balance@ == match decoded {
                Some(bytes) => unsigned_value(bytes@),
                None => 0,
            },
        reply matches Ok(message) ==> forall|n: nat|
            message@ == #[trigger] nat_message(n) ==> balance@ == n || balance@ == 0,
{
    let reported: Option<Nat> = match reply {
        Ok(message) => {
            let received: &[u8] = message.as_slice();
            let decoded: Option<Vec<u8>> = decode_nat(received);
            proof {
                lemma_nat_decoded(received, decoded);
            }
            match decoded {
                Some(bytes) => Some(Nat::from_bytes_le(bytes.as_slice())),
                None => None,
            }
        },
        Err(_) => None,
    };
    balance_or_zero(reported)
}

/// Arguments for the ledger's `icrc1_transfer` method.
#[derive(Clone, Debug, PartialEq, Eq)]
pub struct TransferArg {
    /// The subaccount that pays.
    pub from_subaccount: Option<[u8; 32]>,
    /// The account that is paid.
    pub to: Account,
    /// The amount.
    pub amount: Nat,
    /// The fee, the ledger's own if there is none.
    pub fee: Option<Nat>,
    /// A note on the transfer.
    pub memo: Option<Vec<u8>>,
    /// When the transfer was made.
    pub created_at_time: Option<u64>,
}

/// The call that transfers tokens: the method `method` of the canister
/// `ledger_id`, with `arg` as its argument.
#[derive(Clone, Debug, PartialEq, Eq)]
pub struct TransferCall {
    /// The ledger canister.
    pub ledger_id: Principal,
    /// The method that transfers.
    pub method: &'static str,
    /// The transfer.
    pub arg: TransferArg,
}

/// Withdraws `amount` tokens from the canister's default account on an ICRC-1
/// ledger to `destination`. The reply to the call goes to
/// [`withdraw_from_reply`].
///
/// Only the current owner may withdraw; other callers get
/// [`TreasuryError::NotOwner`], and no call is made for them.
pub fn withdraw(
    context: &TreasuryContext,
    caller: Principal,
    ledger_id: Principal,
    amount: Nat,
    destination: Account,
) -> (call: Result<TransferCall, TreasuryError>)
    ensures
        call is Ok <==> caller@ == context@,
        call matches Err(error) ==> error == TreasuryError::NotOwner,
        call matches Ok(transfer) ==> {
            &&& transfer.ledger_id == ledger_id
            &&& transfer.method@ == "icrc1_transfer"@
            &&& transfer.arg == (TransferArg {
                from_subaccount: None,
                to: destination,
                amount,
                fee: None,
                memo: None,
                created_at_time: None,
            })
        },
{
    if caller != context.state.owner {
        return Err(TreasuryError::NotOwner);
    }
    Ok(
        TransferCall {
            ledger_id,
            method: "icrc1_transfer",
            arg: TransferArg {
                from_subaccount: None,
                to: destination,
                amount,
                fee: None,
                memo: None,
                created_at_time: None,
            },
        },
    )
}

/// The ledger's reply to a transfer.
#[derive(Debug)]
pub enum TransferReply {
    /// The call failed, for the reason given.
    CallFailed(String),
    /// The reply could not be decoded, for the reason given.
    Undecodable(String),
    /// The ledger's answer: the block index, or why it rejected the transfer.
    Answer(Result<Nat, TransferError>),
}

/// The outcome of a withdrawal that the ledger's reply means: the ledger block
/// index, or what went wrong.
pub fn withdraw_from_reply(reply: TransferReply) -> (result: Result<Nat, TreasuryError>)
    ensures
        result == (match reply {
            TransferReply::CallFailed(message) => Err::<Nat, TreasuryError>(
                TreasuryError::LedgerTrap(message),
            ),
            TransferReply::Undecodable(message) => Err(TreasuryError::LedgerTrap(message)),
            TransferReply::Answer(Err(error)) => Err(TreasuryError::TransferFailed(error)),
            TransferReply::Answer(Ok(block_index)) => Ok(block_index),
        }),
{
    match reply {
        TransferReply::CallFailed(message) => Err(TreasuryError::LedgerTrap(message)),
        TransferReply::Undecodable(message) => Err(TreasuryError::LedgerTrap(message)),
        TransferReply::Answer(answer) => match answer {
            Ok(block_index) => Ok(block_index),
            Err(error) => Err(TreasuryError::TransferFailed(error)),
        },
    }
}

/// The owner after the requests in `requests`, each a caller and the owner it
/// asks for.
pub open spec fn owner_after_all(owner: Seq<u8>, requests: Seq<(Seq<u8>, Seq<u8>)>) -> Seq<u8>
    decreases requests.len(),
{
    if requests.len() == 0 {
        owner
    } else {
        let before = owner_after_all(owner, requests.drop_last());
        owner_after(before, requests.last().0, requests.last().1)
    }
}

/// Nobody but the owner changes the owner: however many requests others make,
/// the owner stays.
pub proof fn law_others_cannot_take_ownership(
    owner: Seq<u8>,
    requests: Seq<(Seq<u8>, Seq<u8>)>,
)
    requires
        forall|i: int| 0 <= i < requests.len() ==> (#[trigger] requests[i]).0 != owner,
    ensures
        owner_after_all(owner, requests) == owner,
    decreases requests.len(),
{
    if requests.len() > 0 {
        let front = requests.drop_last();
        assert forall|i: int| 0 <= i < front.len() implies (#[trigger] front[i]).0 != owner by {
            assert(front[i] == requests[i]);
        }
        law_others_cannot_take_ownership(owner, front);
        assert(requests[requests.len() - 1].0 != owner);
    }
}

/// With ownership goes access: after a transfer the new owner is the owner,
/// and the old owner's requests change nothing any more.
pub proof fn law_transfer_moves_access(owner: Seq<u8>, new_owner: Seq<u8>, wanted: Seq<u8>)
    requires
        new_owner != owner,
    ensures
        ({
            let after = owner_after(owner, owner, new_owner);
            &&& after == new_owner
            &&& after != owner
            &&& owner_after(after, owner, wanted) == after
            &&& owner_after(after, new_owner, wanted) == wanted
        }),
{
}

/// The owner alone decides who is the owner: what the owner asks for happens,
/// also where that is to stay the owner, and what anybody else asks for does not.
pub proof fn law_owner_decides_on_ownership(
    owner: Seq<u8>,
    caller: Seq<u8>,
    new_owner: Seq<u8>,
)
    ensures
        owner_after(owner, owner, new_owner) == new_owner,
        caller != owner ==> owner_after(owner, caller, new_owner) == owner,
{
}

/// The text of a treasury error says what happened: a refusal by the ledger ends
/// in the ledger's error, and a trap in the message of the trap.
pub proof fn law_treasury_errors_say_what_happened(error: TransferError, message: String)
    ensures
        TreasuryError::NotOwner.text() == "caller is not the canister owner"@,
        TreasuryError::TransferFailed(error).text() == "ledger rejected transfer: "@ + error.text(),
        TreasuryError::LedgerTrap(message).text() == "ledger canister trapped: "@ + message@,
{
}

/// The text of a transfer error is its name with the name and the decimal value
/// of each number in it.
pub proof fn law_transfer_errors_show_their_fields(number: Nat, time: u64, message: String)
    ensures
        (TransferError::BadFee { expected_fee: number }).text() == "BadFee { expected_fee: Nat("@
            + decimal(number@) + ") }"@,
        (TransferError::BadBurn { min_burn_amount: number }).text()
            == "BadBurn { min_burn_amount: Nat("@ + decimal(number@) + ") }"@,
        (TransferError::InsufficientFunds { balance: number }).text()
            == "InsufficientFunds { balance: Nat("@ + decimal(number@) + ") }"@,
        TransferError::TooOld.text() == "TooOld"@,
        (TransferError::CreatedInFuture { ledger_time: time }).text()
            == "CreatedInFuture { ledger_time: "@ + decimal(time as nat) + " }"@,
        (TransferError::Duplicate { duplicate_of: number }).text()
            == "Duplicate { duplicate_of: Nat("@ + decimal(number@) + ") }"@,
        TransferError::TemporarilyUnavailable.text() == "TemporarilyUnavailable"@,
        (TransferError::GenericError { error_code: number, message }).text()
            == "GenericError { error_code: Nat("@ + decimal(number@) + "), message: "@ + quoted(
            message@,
        ) + " }"@,
{
}

/// Nothing but a refusal by the decoder stands between a ledger's report of the
/// number `n` and the balance `n`. Here `decoded` is what the decoder gave for the
/// reply `message`, and `balance` is what [`balance_from_reply`] makes of it.
pub proof fn law_only_the_decoder_hides_a_balance(
    message: Seq<u8>,
    decoded: Option<Vec<u8>>,
    balance: nat,
    n: nat,
)
    requires
        nat_decoded(message, decoded),
        balance == (match decoded {
            Some(bytes) => unsigned_value(bytes@),
            None => 0,
        }),
    ensures
        message == nat_message(n) && decoded is Some ==> balance == n,
        message == nat_message(n) && balance != n ==> decoded is None,
        never_nat(message) ==> balance == 0,
{
    law_read_gives_what_was_written(message, decoded, decoded, n);
}

} // verus!
