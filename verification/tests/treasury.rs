use ic_rmcp::numbers::Nat;
use ic_rmcp::principal::Principal;
use ic_rmcp::treasury::{
    balance_from_reply, balance_or_zero, generic_error_message, get_owner, get_treasury_balance,
    init, set_owner, withdraw, withdraw_from_reply, Account, TransferArg, TransferError,
    TransferReply, TreasuryError,
};

fn principal(text: &str) -> Principal {
    Principal::from_slice(candid::Principal::from_text(text).unwrap().as_slice())
}

#[test]
fn set_owner_is_owner_gated() {
    let owner = principal("2vxsx-fae");
    let other = principal("rrkah-fqaaa-aaaaa-aaaaq-cai");
    let mut context = init(owner);

    assert_eq!(get_owner(&context), owner);
    assert_eq!(
        set_owner(&mut context, other, other),
        Err(TreasuryError::NotOwner)
    );
    assert_eq!(get_owner(&context), owner);
    assert_eq!(set_owner(&mut context, owner, other), Ok(()));
    assert_eq!(get_owner(&context), other);
}

#[test]
fn withdraw_rejects_non_owner_before_any_ledger_call() {
    let owner = principal("2vxsx-fae");
    let other = principal("rrkah-fqaaa-aaaaa-aaaaq-cai");
    let ledger = principal("ryjl3-tyaaa-aaaaa-aaaba-cai");
    let context = init(owner);
    let destination = Account {
        owner: other,
        subaccount: None,
    };

    let result = withdraw(&context, other, ledger, Nat::from(100), destination);
    assert_eq!(result, Err(TreasuryError::NotOwner));
}

#[test]
fn owner_withdraws_from_the_default_account() {
    let owner = principal("2vxsx-fae");
    let other = principal("rrkah-fqaaa-aaaaa-aaaaq-cai");
    let ledger = principal("ryjl3-tyaaa-aaaaa-aaaba-cai");
    let context = init(owner);
    let destination = Account { owner: other, subaccount: Some([7; 32]) };

    let call = withdraw(&context, owner, ledger, Nat::from(100), destination.clone()).unwrap();
    assert_eq!(call.ledger_id, ledger);
    assert_eq!(call.method, "icrc1_transfer");
    assert_eq!(
        call.arg,
        TransferArg {
            from_subaccount: None,
            to: destination,
            amount: Nat::from(100),
            fee: None,
            memo: None,
            created_at_time: None,
        }
    );
    assert_eq!(get_owner(&context), owner);
}

#[test]
fn old_owner_loses_access() {
    let owner = principal("2vxsx-fae");
    let other = principal("rrkah-fqaaa-aaaaa-aaaaq-cai");
    let ledger = principal("ryjl3-tyaaa-aaaaa-aaaba-cai");
    let mut context = init(owner);
    set_owner(&mut context, owner, other).unwrap();

    let account = Account { owner, subaccount: None };
    assert_eq!(
        withdraw(&context, owner, ledger, Nat::from(1), account.clone()),
        Err(TreasuryError::NotOwner)
    );
    assert_eq!(set_owner(&mut context, owner, owner), Err(TreasuryError::NotOwner));
    assert!(withdraw(&context, other, ledger, Nat::from(1), account).is_ok());
}

#[test]
fn others_never_become_owner() {
    let owner = principal("2vxsx-fae");
    let other = principal("rrkah-fqaaa-aaaaa-aaaaq-cai");
    let third = principal("aaaaa-aa");
    let mut context = init(owner);
    for (caller, wanted) in [(other, other), (third, other), (other, third), (third, third)] {
        assert_eq!(set_owner(&mut context, caller, wanted), Err(TreasuryError::NotOwner));
    }
    assert_eq!(get_owner(&context), owner);
}

#[test]
fn balance_is_asked_of_the_default_account() {
    let canister = principal("rrkah-fqaaa-aaaaa-aaaaq-cai");
    let ledger = principal("ryjl3-tyaaa-aaaaa-aaaba-cai");
    let call = get_treasury_balance(canister, ledger);
    assert_eq!(call.ledger_id, ledger);
    assert_eq!(call.method, "icrc1_balance_of");
    assert_eq!(call.account, Account { owner: canister, subaccount: None });
}

#[test]
fn balance_is_what_the_ledger_reports() {
    for n in [0u64, 1, 127, 128, 1_000_000, u64::MAX] {
        let reply = candid::encode_one(candid::Nat::from(n)).unwrap();
        assert_eq!(balance_from_reply(Ok(reply)), Nat::from(n));
    }
    let large = candid::Nat::parse(b"340282366920938463463374607431768211456").unwrap();
    let reply = candid::encode_one(large).unwrap();
    assert_eq!(
        balance_from_reply(Ok(reply)).to_decimal(),
        "340282366920938463463374607431768211456"
    );
}

#[test]
fn number_messages_have_the_stated_bytes() {
    assert_eq!(
        candid::encode_one(candid::Nat::from(300u64)).unwrap(),
        vec![0x44, 0x49, 0x44, 0x4c, 0x00, 0x01, 0x7d, 0xac, 0x02]
    );
    assert_eq!(
        balance_from_reply(Ok(vec![0x44, 0x49, 0x44, 0x4c, 0x00, 0x01, 0x7d, 0xac, 0x02])),
        Nat::from(300)
    );
}

#[test]
fn missing_ledger_is_an_empty_treasury() {
    assert_eq!(balance_from_reply(Err("canister not found".to_string())), Nat::from(0));
    assert_eq!(balance_from_reply(Ok(vec![])), Nat::from(0));
    let text = candid::encode_one("no number").unwrap();
    assert_eq!(balance_from_reply(Ok(text)), Nat::from(0));
    let empty = vec![0x44, 0x49, 0x44, 0x4c, 0x00, 0x00];
    assert_eq!(balance_from_reply(Ok(empty)), Nat::from(0));
    assert_eq!(balance_or_zero(None), Nat::from(0));
    assert_eq!(balance_or_zero(Some(Nat::from(5))), Nat::from(5));
}

#[test]
fn values_of_other_types_are_no_balance() {
    for type_code in (0x00..0x80u8).filter(|code| *code != 0x7d) {
        for values in [vec![], vec![5], vec![1, 5], vec![1; 8], vec![0x81, 1]] {
            let mut one = vec![0x44, 0x49, 0x44, 0x4c, 0x00, 0x01, type_code];
            one.extend(&values);
            assert_eq!(balance_from_reply(Ok(one)), Nat::from(0));
            let mut two = vec![0x44, 0x49, 0x44, 0x4c, 0x00, 0x02, type_code, 0x7d];
            two.extend(&values);
            assert_eq!(balance_from_reply(Ok(two)), Nat::from(0));
        }
    }
    let mut none = vec![0x44, 0x49, 0x44, 0x4c, 0x00, 0x00];
    none.push(7);
    assert_eq!(balance_from_reply(Ok(none)), Nat::from(0));
}

#[test]
fn damaged_number_is_no_balance() {
    for number in [1u128, 127, 128, 300, 1 << 63, u64::MAX as u128, u128::MAX] {
        let message = candid::encode_one(candid::Nat::from(number)).unwrap();
        for len in 0..message.len() {
            assert_eq!(balance_from_reply(Ok(message[..len].to_vec())), Nat::from(0));
        }
        for extra in [0x00, 0x01, 0x7f, 0x80, 0xff] {
            let mut longer = message.clone();
            longer.push(extra);
            assert_eq!(balance_from_reply(Ok(longer)), Nat::from(0));
        }
        assert_ne!(balance_from_reply(Ok(message)), Nat::from(0));
    }
}

#[test]
fn replies_decide_withdrawals() {
    assert_eq!(
        withdraw_from_reply(TransferReply::Answer(Ok(Nat::from(42)))),
        Ok(Nat::from(42))
    );
    let error = TransferError::InsufficientFunds { balance: Nat::from(3) };
    assert_eq!(
        withdraw_from_reply(TransferReply::Answer(Err(error.clone()))),
        Err(TreasuryError::TransferFailed(error))
    );
    assert_eq!(
        withdraw_from_reply(TransferReply::CallFailed("out of cycles".to_string())),
        Err(TreasuryError::LedgerTrap("out of cycles".to_string()))
    );
    assert_eq!(
        withdraw_from_reply(TransferReply::Undecodable("bad magic".to_string())),
        Err(TreasuryError::LedgerTrap("bad magic".to_string()))
    );
}

#[test]
fn treasury_errors_read_well() {
    assert_eq!(TreasuryError::NotOwner.message(), "caller is not the canister owner");
    assert_eq!(
        TreasuryError::LedgerTrap("gone".to_string()).message(),
        "ledger canister trapped: gone"
    );
    assert_eq!(
        TreasuryError::TransferFailed(TransferError::TooOld).message(),
        "ledger rejected transfer: TooOld"
    );
}

#[derive(Debug)]
#[allow(dead_code)]
enum Printed {
    BadFee { expected_fee: candid::Nat },
    BadBurn { min_burn_amount: candid::Nat },
    InsufficientFunds { balance: candid::Nat },
    TooOld,
    CreatedInFuture { ledger_time: u64 },
    Duplicate { duplicate_of: candid::Nat },
    TemporarilyUnavailable,
    GenericError { error_code: candid::Nat, message: String },
}

#[test]
fn transfer_errors_print_their_fields() {
    let n = || candid::Nat::from(10_000u64);
    let m = || Nat::from(10_000);
    let text = "a \"quote\",\na line and \u{e9}".to_string();
    let cases = vec![
        (TransferError::BadFee { expected_fee: m() }, Printed::BadFee { expected_fee: n() }),
        (
            TransferError::BadBurn { min_burn_amount: m() },
            Printed::BadBurn { min_burn_amount: n() },
        ),
        (
            TransferError::InsufficientFunds { balance: m() },
            Printed::InsufficientFunds { balance: n() },
        ),
        (TransferError::TooOld, Printed::TooOld),
        (
            TransferError::CreatedInFuture { ledger_time: 77 },
            Printed::CreatedInFuture { ledger_time: 77 },
        ),
        (
            TransferError::Duplicate { duplicate_of: m() },
            Printed::Duplicate { duplicate_of: n() },
        ),
        (TransferError::TemporarilyUnavailable, Printed::TemporarilyUnavailable),
        (
            TransferError::GenericError { error_code: m(), message: text.clone() },
            Printed::GenericError { error_code: n(), message: text },
        ),
    ];
    for (error, printed) in cases {
        assert_eq!(error.message(), format!("{:?}", printed));
    }
    assert_eq!(
        TransferError::BadFee { expected_fee: m() }.message(),
        "BadFee { expected_fee: Nat(10000) }"
    );
    assert_eq!(
        generic_error_message(&Nat::from(1), "\"x\""),
        "GenericError { error_code: Nat(1), message: \"x\" }"
    );
}
