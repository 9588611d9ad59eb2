use ic_rmcp::api_key::{
    create_api_key_from_random, create_my_api_key, init, list_my_api_keys, revoke_my_api_key,
    store_digest, ApiKeyContext, ApiKeyError, ApiKeyInfo,
};
use ic_rmcp::principal::Principal;

fn principal(text: &str) -> Principal {
    Principal::from_slice(candid::Principal::from_text(text).unwrap().as_slice())
}

fn create(context: &mut ApiKeyContext, caller: Principal, bytes: &[u8]) -> String {
    create_api_key_from_random(context, caller, "key".to_string(), vec![], bytes, 7).unwrap()
}

fn hashed_keys(context: &ApiKeyContext, caller: Principal) -> Vec<String> {
    list_my_api_keys(context, caller)
        .into_iter()
        .map(|metadata| metadata.hashed_key)
        .collect()
}

#[test]
fn lifecycle_keeps_raw_keys_out_of_metadata_and_enforces_ownership() {
    let owner = principal("2vxsx-fae");
    let other = principal("rrkah-fqaaa-aaaaa-aaaaq-cai");
    let mut context = init(owner);
    let raw_key = create_api_key_from_random(
        &mut context,
        owner,
        "Analytics service".to_string(),
        vec!["read:usage".to_string(), "write:usage".to_string()],
        &[1, 2, 3, 4],
        123,
    )
    .unwrap();

    assert_eq!(raw_key, "01020304");
    let metadata = list_my_api_keys(&context, owner);
    assert_eq!(metadata.len(), 1);
    assert_ne!(metadata[0].hashed_key, raw_key);
    assert_eq!(metadata[0].info.principal, owner);
    assert_eq!(metadata[0].info.created, 123);
    assert!(list_my_api_keys(&context, other).is_empty());

    let hashed_key = metadata[0].hashed_key.clone();
    assert_eq!(
        revoke_my_api_key(&mut context, other, &hashed_key),
        Err(ApiKeyError::Unauthorized)
    );
    assert_eq!(list_my_api_keys(&context, owner).len(), 1);
    assert_eq!(revoke_my_api_key(&mut context, owner, &hashed_key), Ok(()));
    assert!(list_my_api_keys(&context, owner).is_empty());
    assert_eq!(revoke_my_api_key(&mut context, owner, &hashed_key), Ok(()));
}

#[test]
fn each_random_value_produces_a_distinct_hashed_key() {
    let owner = principal("2vxsx-fae");
    let mut context = init(owner);
    let first = create_api_key_from_random(
        &mut context,
        owner,
        "first".to_string(),
        vec![],
        &[0; 32],
        1,
    )
    .unwrap();
    let second = create_api_key_from_random(
        &mut context,
        owner,
        "second".to_string(),
        vec![],
        &[1; 32],
        2,
    )
    .unwrap();

    assert_ne!(first, second);
    assert_eq!(list_my_api_keys(&context, owner).len(), 2);
}

#[test]
fn storage_key_is_the_hexadecimal_digest() {
    let owner = principal("2vxsx-fae");
    let mut context = ApiKeyContext::new(owner);
    assert_eq!(create(&mut context, owner, b"abc"), "616263");
    assert_eq!(
        hashed_keys(&context, owner),
        vec!["ba7816bf8f01cfea414140de5dae2223b00361a396177a9cb410ff61f20015ad".to_string()]
    );
}

#[test]
fn raw_key_has_two_lower_case_digits_a_byte() {
    let owner = principal("2vxsx-fae");
    let mut context = init(owner);
    assert_eq!(create(&mut context, owner, &[0x00, 0x0f, 0xf0, 0xab, 0xff]), "000ff0abff");
    assert_eq!(create(&mut context, owner, &[]), "");
}

#[test]
fn metadata_is_kept_as_given() {
    let owner = principal("2vxsx-fae");
    let mut context = init(owner);
    create_api_key_from_random(
        &mut context,
        owner,
        "label".to_string(),
        vec!["a".to_string(), "b".to_string()],
        &[9],
        -5,
    )
    .unwrap();
    let listing = list_my_api_keys(&context, owner);
    assert_eq!(
        listing[0].info,
        ApiKeyInfo {
            principal: owner,
            scopes: vec!["a".to_string(), "b".to_string()],
            name: "label".to_string(),
            created: -5,
        }
    );
}

#[test]
fn listing_is_in_the_order_of_the_storage_keys() {
    let owner = principal("2vxsx-fae");
    let other = principal("rrkah-fqaaa-aaaaa-aaaaq-cai");
    let mut context = init(owner);
    for i in 0..20u8 {
        let caller = if i % 3 == 0 { other } else { owner };
        create(&mut context, caller, &[i]);
    }
    let mine = hashed_keys(&context, owner);
    let mut sorted = mine.clone();
    sorted.sort();
    assert_eq!(mine, sorted);
    assert_eq!(mine.len(), 13);
    assert_eq!(hashed_keys(&context, other).len(), 7);
    for metadata in list_my_api_keys(&context, owner) {
        assert_eq!(metadata.info.principal, owner);
    }
}

#[test]
fn same_random_bytes_replace_the_key() {
    let owner = principal("2vxsx-fae");
    let other = principal("rrkah-fqaaa-aaaaa-aaaaq-cai");
    let mut context = init(owner);
    create(&mut context, owner, &[5]);
    create(&mut context, other, &[5]);
    assert!(list_my_api_keys(&context, owner).is_empty());
    assert_eq!(list_my_api_keys(&context, other).len(), 1);
}

#[test]
fn revoking_takes_back_creating() {
    let owner = principal("2vxsx-fae");
    let mut context = init(owner);
    create(&mut context, owner, &[1]);
    let before = list_my_api_keys(&context, owner);
    create(&mut context, owner, &[2]);
    let new_key = hashed_keys(&context, owner)
        .into_iter()
        .find(|key| before.iter().all(|metadata| metadata.hashed_key != *key))
        .unwrap();
    assert_eq!(revoke_my_api_key(&mut context, owner, &new_key), Ok(()));
    assert_eq!(list_my_api_keys(&context, owner), before);
}

#[test]
fn unknown_keys_are_revoked_without_effect() {
    let owner = principal("2vxsx-fae");
    let mut context = init(owner);
    create(&mut context, owner, &[1]);
    assert_eq!(revoke_my_api_key(&mut context, owner, ""), Ok(()));
    assert_eq!(revoke_my_api_key(&mut context, owner, "schl\u{fc}ssel"), Ok(()));
    assert_eq!(list_my_api_keys(&context, owner).len(), 1);
}

#[test]
fn raw_key_does_not_revoke() {
    let owner = principal("2vxsx-fae");
    let mut context = init(owner);
    let raw_key = create(&mut context, owner, &[7; 32]);
    assert_eq!(revoke_my_api_key(&mut context, owner, &raw_key), Ok(()));
    assert_eq!(list_my_api_keys(&context, owner).len(), 1);
}

#[test]
fn randomness_makes_the_key() {
    let owner = principal("2vxsx-fae");
    let mut context = init(owner);
    let raw_key = create_my_api_key(
        &mut context,
        owner,
        "mine".to_string(),
        vec![],
        Ok(vec![0xbe, 0xef]),
        1_700_000_000_000_000_000,
    );
    assert_eq!(raw_key, Ok("beef".to_string()));
    let listing = list_my_api_keys(&context, owner);
    assert_eq!(listing[0].info.created, 1_700_000_000_000_000_000);
    assert_eq!(listing[0].info.name, "mine");
}

#[test]
fn failed_randomness_makes_no_key() {
    let owner = principal("2vxsx-fae");
    let mut context = init(owner);
    let result = create_my_api_key(
        &mut context,
        owner,
        "mine".to_string(),
        vec![],
        Err("no entropy".to_string()),
        1,
    );
    assert_eq!(result, Err(ApiKeyError::Randomness("no entropy".to_string())));
    assert!(list_my_api_keys(&context, owner).is_empty());
}

#[test]
fn late_clock_readings_wrap_around() {
    let owner = principal("2vxsx-fae");
    let mut context = init(owner);
    create_my_api_key(&mut context, owner, "k".to_string(), vec![], Ok(vec![1]), u64::MAX)
        .unwrap();
    assert_eq!(list_my_api_keys(&context, owner)[0].info.created, -1);
}

#[test]
fn digest_is_stored_in_hexadecimal() {
    let owner = principal("2vxsx-fae");
    let mut context = init(owner);
    let info = ApiKeyInfo { principal: owner, scopes: vec![], name: String::new(), created: 0 };
    store_digest(&mut context, &[0xa5; 32], info);
    assert_eq!(hashed_keys(&context, owner), vec!["a5".repeat(32)]);
}

#[test]
fn api_key_errors_read_well() {
    assert_eq!(
        ApiKeyError::Randomness("timeout".to_string()).message(),
        "randomness request failed: timeout"
    );
    assert_eq!(
        ApiKeyError::Unauthorized.message(),
        "you can only revoke your own API keys"
    );
}

#[test]
fn raw_keys_decode_to_their_bytes() {
    let owner = principal("2vxsx-fae");
    let mut context = init(owner);
    let bytes: Vec<u8> = (0..=255).collect();
    let raw_key = create(&mut context, owner, &bytes);
    assert_eq!(raw_key.len(), 512);
    assert_eq!(hex::decode(&raw_key), Ok(bytes));
    assert_ne!(create(&mut context, owner, &[0]), create(&mut context, owner, &[0, 0]));
}

#[test]
fn listing_does_not_show_what_others_do() {
    let owner = principal("2vxsx-fae");
    let other = principal("rrkah-fqaaa-aaaaa-aaaaq-cai");
    let mut context = init(owner);
    create(&mut context, owner, &[1]);
    create(&mut context, owner, &[2]);
    let before = list_my_api_keys(&context, owner);
    create(&mut context, other, &[3]);
    assert_eq!(list_my_api_keys(&context, owner), before);
    for metadata in &before {
        let refused = revoke_my_api_key(&mut context, other, &metadata.hashed_key);
        assert_eq!(refused, Err(ApiKeyError::Unauthorized));
    }
    let foreign = hashed_keys(&context, other);
    assert_eq!(revoke_my_api_key(&mut context, other, &foreign[0]), Ok(()));
    assert_eq!(list_my_api_keys(&context, owner), before);
}
