//! Self-service API-key management.
//!
//! The module stores only SHA-256 hashes of API keys. A raw key is returned
//! exactly once by [`create_my_api_key`]; callers should treat it like a
//! password and never persist it in canister state or logs.
//!
//! `caller` must come from a verified canister call context, never from
//! client-supplied request data.

use crate::clock::{law_timestamp_is_the_reading, timestamp, timestamp_from_ns};
use crate::digest::{
    hex_bytes, hex_encode, hex_text, is_digestible, is_hex_text, lemma_hex_bytes, lemma_hex_text,
    lemma_hex_text_injective, sha256, sha256_digest, DIGEST_LENGTH,
};
use crate::order::{is_before, lemma_text_total, lemma_text_transitive, text_before};
use crate::principal::Principal;
use crate::table::{contents, keys_differ, lemma_next_pair, Table};
use vstd::prelude::*;
use vstd::string::StringExecFns;

verus! {

/// The hexadecimal SHA-256 digest used as the storage key for an API key.
pub type HashedApiKey = String;

/// Metadata associated with one API key.
#[derive(Debug, PartialEq, Eq)]
pub struct ApiKeyInfo {
    /// Principal represented by the key.
    pub principal: Principal,
    /// Application-defined permissions granted to the key.
    pub scopes: Vec<String>,
    /// Human-readable label for the key.
    pub name: String,
    /// Creation time in IC nanoseconds.
    pub created: i64,
}

/// What an [`ApiKeyInfo`] stands for.
#[verifier::ext_equal]
pub struct KeyInfo {
    /// Principal represented by the key.
    pub principal: Seq<u8>,
    /// Permissions granted to the key.
    pub scopes: Seq<Seq<char>>,
    /// Label for the key.
    pub name: Seq<char>,
    /// Creation time.
    pub created: int,
}

/// The texts in `texts`.
pub open spec fn texts(texts: Seq<String>) -> Seq<Seq<char>> {
    texts.map_values(|text: String| text@)
}

impl View for ApiKeyInfo {
    type V = KeyInfo;

    open spec fn view(&self) -> KeyInfo {
        KeyInfo {
            principal: self.principal@,
            scopes: texts(self.scopes@),
            name: self.name@,
            created: self.created as int,
        }
    }
}

impl Clone for ApiKeyInfo {
    fn clone(&self) -> (copy: ApiKeyInfo)
        ensures
            copy@ == self@,
    {
        let scopes: Vec<String> = self.scopes.clone();
        proof {
            assert forall|i: int| 0 <= i < scopes@.len() implies scopes@[i] == self.scopes@[i] by {
                assert(cloned(self.scopes@[i], scopes@[i]));
            }
            assert(texts(scopes@) =~= texts(self.scopes@));
        }
        ApiKeyInfo {
            principal: self.principal,
            scopes,
            name: self.name.clone(),
            created: self.created,
        }
    }
}

/// Key metadata returned to its owner. The raw key is intentionally absent.
#[derive(Clone, Debug, PartialEq, Eq)]
pub struct ApiKeyMetadata {
    /// The storage key.
    pub hashed_key: HashedApiKey,
    /// The metadata of the key.
    pub info: ApiKeyInfo,
}

/// Errors returned by API-key operations.
#[derive(Clone, Debug, PartialEq, Eq)]
pub enum ApiKeyError {
    /// The management canister could not provide secure randomness.
    Randomness(String),
    /// The caller tried to revoke a key owned by another principal.
    Unauthorized,
}

impl ApiKeyError {
    /// The error as a text for humans.
    pub open spec fn text(self) -> Seq<char> {
        match self {
            ApiKeyError::Randomness(error) => "randomness request failed: "@ + error@,
            ApiKeyError::Unauthorized => "you can only revoke your own API keys"@,
        }
    }

    /// The error as a text for humans.
    pub fn message(&self) -> (message: String)
        ensures
            message@ == self.text(),
    {
        match self {
            ApiKeyError::Randomness(error) => {
                let mut message: String = "randomness request failed: ".to_owned();
                message.append(error.as_str());
                message
            },
            ApiKeyError::Unauthorized => "you can only revoke your own API keys".to_owned(),
        }
    }
}

/// Mutable API-key store.
pub struct ApiKeyState {
    /// Administrative owner retained for applications that also expose
    /// owner-gated key management. Self-service operations do not use it.
    pub owner: Principal,
    api_keys: Table<HashedApiKey, ApiKeyInfo>,
}

/// Handle used by the free functions in this module.
pub struct ApiKeyContext {
    state: ApiKeyState,
}

/// What an [`ApiKeyContext`] stands for.
#[verifier::ext_equal]
pub struct KeyStore {
    /// The administrative owner.
    pub owner: Seq<u8>,
    /// The metadata of the keys, by storage key.
    pub keys: Map<Seq<char>, KeyInfo>,
}

/// The part of `keys` that belongs to `principal`.
pub open spec fn owned_by(
    keys: Map<Seq<char>, KeyInfo>,
    principal: Seq<u8>,
) -> Map<Seq<char>, KeyInfo> {
    Map::new(
        |key: Seq<char>| keys.contains_key(key) && keys[key].principal == principal,
        |key: Seq<char>| keys[key],
    )
}

impl KeyStore {
    /// A store without keys.
    pub open spec fn new(owner: Seq<u8>) -> KeyStore {
        KeyStore { owner, keys: Map::empty() }
    }

    /// After a key with the SHA-256 digest `digest` was created.
    pub open spec fn after_create(self, digest: Seq<u8>, info: KeyInfo) -> KeyStore {
        KeyStore { keys: self.keys.insert(hex_text(digest), info), ..self }
    }

    /// Whether `hashed_key` is a key of another principal than `caller`.
    pub open spec fn is_foreign(self, caller: Seq<u8>, hashed_key: Seq<char>) -> bool {
        self.keys.contains_key(hashed_key) && self.keys[hashed_key].principal != caller
    }

    /// After `caller` asked to revoke `hashed_key`.
    pub open spec fn after_revoke(self, caller: Seq<u8>, hashed_key: Seq<char>) -> KeyStore {
        if self.is_foreign(caller, hashed_key) {
            self
        } else {
            KeyStore { keys: self.keys.remove(hashed_key), ..self }
        }
    }

    /// The keys that belong to `principal`.
    pub open spec fn keys_of(self, principal: Seq<u8>) -> Map<Seq<char>, KeyInfo> {
        owned_by(self.keys, principal)
    }

    /// Every storage key is a digest in hexadecimal.
    pub open spec fn holds_digests(self) -> bool {
        forall|key: Seq<char>| #[trigger]
            self.keys.contains_key(key) ==> key.len() == 2 * DIGEST_LENGTH && is_hex_text(key)
    }
}

/// `listing` lists `keys`: every key once with its metadata, in the order of
/// the storage keys.
pub open spec fn lists_keys(
    listing: Seq<ApiKeyMetadata>,
    keys: Map<Seq<char>, KeyInfo>,
) -> bool {
    &&& forall|i: int|
        0 <= i < listing.len() ==> keys.contains_key((#[trigger] listing[i]).hashed_key@)
            && listing[i].info@ == keys[listing[i].hashed_key@]
    &&& forall|key: Seq<char>| #[trigger]
        keys.contains_key(key) ==> exists|i: int|
            0 <= i < listing.len() && (#[trigger] listing[i]).hashed_key@ == key
    &&& forall|i: int, j: int|
        0 <= i < j < listing.len() ==> text_before(
            (#[trigger] listing[i]).hashed_key@,
            (#[trigger] listing[j]).hashed_key@,
        )
}

/// The metadata that the values of `keys` stand for.
spec fn infos(keys: Map<Seq<char>, ApiKeyInfo>) -> Map<Seq<char>, KeyInfo> {
    keys.map_values(|info: ApiKeyInfo| info@)
}

impl View for ApiKeyContext {
    type V = KeyStore;

    closed spec fn view(&self) -> KeyStore {
        KeyStore { owner: self.state.owner@, keys: infos(self.state.api_keys@) }
    }
}

impl ApiKeyContext {
    /// The table of keys is well formed, and its keys are digests.
    pub closed spec fn wf(self) -> bool {
        &&& self.state.api_keys.wf()
        &&& self@.holds_digests()
    }

    /// What `wf` says of the store: it holds nothing but digests by which keys
    /// are found.
    pub proof fn lemma_wf(self)
        requires
            self.wf(),
        ensures
            self@.holds_digests(),
    {
    }

    /// Creates an empty API-key store.
    pub fn new(owner: Principal) -> (context: ApiKeyContext)
        ensures
            context.wf(),
            context@ == KeyStore::new(owner@),
    {
        let context = ApiKeyContext { state: ApiKeyState { owner, api_keys: Table::new() } };
        assert(context@ =~= KeyStore::new(owner@));
        context
    }
}

/// Creates an empty API-key context.
pub fn init(owner: Principal) -> (context: ApiKeyContext)
    ensures
        context.wf(),
        context@ == KeyStore::new(owner@),
{
    ApiKeyContext::new(owner)
}

/// Stores the key whose SHA-256 digest is `digest`.
pub fn store_digest(context: &mut ApiKeyContext, digest: &[u8], info: ApiKeyInfo)
    requires
        old(context).wf(),
        digest@.len() == DIGEST_LENGTH,
    ensures
        final(context).wf(),
        final(context)@ == old(context)@.after_create(digest@, info@),
{
    let hashed_key: String = hex_encode(digest);
    context.state.api_keys.insert(hashed_key, info);
    proof {
        assert(context@ =~= old(context)@.after_create(digest@, info@));
        lemma_hex_text(digest@);
    }
}

/// Creates a key for `caller` from `random_bytes`. The returned hexadecimal
/// value is the raw key; the store receives only its digest and metadata.
pub fn create_api_key_from_random(
    context: &mut ApiKeyContext,
    caller: Principal,
    name: String,
    scopes: Vec<String>,
    random_bytes: &[u8],
    created: i64,
) -> (raw_key: Result<String, ApiKeyError>)
    requires
        old(context).wf(),
        is_digestible(random_bytes@),
    ensures
        final(context).wf(),
        raw_key is Ok,
        raw_key->Ok_0@ == hex_text(random_bytes@),
        final(context)@ == old(context)@.after_create(
            sha256(random_bytes@),
            KeyInfo {
                principal: caller@,
                scopes: texts(scopes@),
                name: name@,
                created: created as int,
            },
        ),
{
    let raw_key: String = hex_encode(random_bytes);
    let digest: Vec<u8> = sha256_digest(random_bytes);
    let info = ApiKeyInfo { principal: caller, scopes, name, created };
    store_digest(context, digest.as_slice(), info);
    Ok(raw_key)
}

/// Creates a key for `caller` from the outcome of a request for cryptographic
/// randomness: the random bytes, or the text of the failure. `now_ns` is the
/// reading of the clock.
pub fn create_my_api_key(
    context: &mut ApiKeyContext,
    caller: Principal,
    name: String,
    scopes: Vec<String>,
    randomness: Result<Vec<u8>, String>,
    now_ns: u64,
) -> (raw_key: Result<String, ApiKeyError>)
    requires
        old(context).wf(),
        randomness matches Ok(random_bytes) ==> is_digestible(random_bytes@),
    ensures
        final(context).wf(),
        match randomness {
            Ok(random_bytes) => {
                &&& raw_key is Ok
                &&& raw_key->Ok_0@ == hex_text(random_bytes@)
                &&& final(context)@ == old(context)@.after_create(
                    sha256(random_bytes@),
                    KeyInfo {
                        principal: caller@,
                        scopes: texts(scopes@),
                        name: name@,
                        created: timestamp(now_ns),
                    },
                )
            },
            Err(error) => {
                &&& raw_key == Err::<String, ApiKeyError>(ApiKeyError::Randomness(error))
                &&& final(context)@ == old(context)@
            },
        },
{
    match randomness {
        Ok(random_bytes) => create_api_key_from_random(
            context,
            caller,
            name,
            scopes,
            random_bytes.as_slice(),
            timestamp_from_ns(now_ns),
        ),
        Err(error) => Err(ApiKeyError::Randomness(error)),
    }
}

/// Revokes a key if it belongs to `caller`.
///
/// Revoking an unknown key is idempotent. A key belonging to another principal
/// returns [`ApiKeyError::Unauthorized`] and remains untouched.
pub fn revoke_my_api_key(
    context: &mut ApiKeyContext,
    caller: Principal,
    hashed_key: &str,
) -> (result: Result<(), ApiKeyError>)
    requires
        old(context).wf(),
    ensures
        final(context).wf(),
        final(context)@ == old(context)@.after_revoke(caller@, hashed_key@),
        result == (if old(context)@.is_foreign(caller@, hashed_key@) {
            Err::<(), ApiKeyError>(ApiKeyError::Unauthorized)
        } else {
            Ok(())
        }),
{
    let key: HashedApiKey = hashed_key.to_owned();
    match context.state.api_keys.get(&key) {
        Some(info) => {
            if info.principal != caller {
                return Err(ApiKeyError::Unauthorized);
            }
        },
        None => {
            assert(context@ =~= old(context)@.after_revoke(caller@, hashed_key@));
            return Ok(());
        },
    }
    context.state.api_keys.remove(&key);
    assert(context@ =~= old(context)@.after_revoke(caller@, hashed_key@));
    Ok(())
}

/// Puts `item` at its place in `listing`.
fn insert_in_order(
    listing: &mut Vec<ApiKeyMetadata>,
    item: ApiKeyMetadata,
    Ghost(keys): Ghost<Map<Seq<char>, KeyInfo>>,
)
    requires
        lists_keys(old(listing)@, keys),
        !keys.contains_key(item.hashed_key@),
    ensures
        lists_keys(final(listing)@, keys.insert(item.hashed_key@, item.info@)),
{
    let ghost key = item.hashed_key@;
    let mut place: usize = 0;
    while place < listing.len() && is_before(
        listing[place].hashed_key.as_str(),
        item.hashed_key.as_str(),
    )
        invariant
            place <= listing@.len(),
            forall|i: int|
                0 <= i < place ==> text_before((#[trigger] listing@[i]).hashed_key@, key),
            key == item.hashed_key@,
        decreases listing@.len() - place,
    {
        place = place + 1;
    }
    let ghost before = listing@;
    proof {
        assert forall|i: int| place <= i < before.len() implies text_before(
            key,
            (#[trigger] before[i]).hashed_key@,
        ) by {
            lemma_text_total(before[place as int].hashed_key@, key);
            if i > place {
                lemma_text_transitive(
                    key,
                    before[place as int].hashed_key@,
                    before[i].hashed_key@,
                );
            }
        }
    }
    listing.insert(place, item);
    proof {
        lemma_listing_insert(before, place as int, item, keys);
    }
}

/// An item between what comes before it and what comes after it.
proof fn lemma_listing_insert(
    listing: Seq<ApiKeyMetadata>,
    place: int,
    item: ApiKeyMetadata,
    keys: Map<Seq<char>, KeyInfo>,
)
    requires
        lists_keys(listing, keys),
        !keys.contains_key(item.hashed_key@),
        0 <= place <= listing.len(),
        forall|i: int|
            0 <= i < place ==> text_before(
                (#[trigger] listing[i]).hashed_key@,
                item.hashed_key@,
            ),
        forall|i: int|
            place <= i < listing.len() ==> text_before(
                item.hashed_key@,
                (#[trigger] listing[i]).hashed_key@,
            ),
    ensures
        lists_keys(listing.insert(place, item), keys.insert(item.hashed_key@, item.info@)),
{
    let longer = listing.insert(place, item);
    let more = keys.insert(item.hashed_key@, item.info@);
    assert forall|key: Seq<char>| #[trigger] more.contains_key(key) implies exists|i: int|
        0 <= i < longer.len() && (#[trigger] longer[i]).hashed_key@ == key by {
        if key == item.hashed_key@ {
            assert(longer[place].hashed_key@ == key);
        } else {
            assert(keys.contains_key(key));
            let i = choose|i: int|
                0 <= i < listing.len() && (#[trigger] listing[i]).hashed_key@ == key;
            let j = if i < place { i } else { i + 1 };
            assert(longer[j] == listing[i]);
        }
    }
    assert forall|i: int, j: int| 0 <= i < j < longer.len() implies text_before(
        (#[trigger] longer[i]).hashed_key@,
        (#[trigger] longer[j]).hashed_key@,
    ) by {
        if i != place {
            assert(longer[i] == listing[if i < place { i } else { i - 1 }]);
        }
        if j != place {
            assert(longer[j] == listing[if j < place { j } else { j - 1 }]);
        }
    }
    assert forall|i: int| 0 <= i < longer.len() implies more.contains_key(
        (#[trigger] longer[i]).hashed_key@,
    ) && longer[i].info@ == more[longer[i].hashed_key@] by {
        if i != place {
            assert(longer[i] == listing[if i < place { i } else { i - 1 }]);
        }
    }
}

/// Lists only the metadata belonging to `caller`.
pub fn list_my_api_keys(context: &ApiKeyContext, caller: Principal) -> (listing: Vec<
    ApiKeyMetadata,
>)
    requires
        context.wf(),
    ensures
        lists_keys(listing@, context@.keys_of(caller@)),
{
    let ghost pairs = context.state.api_keys.sequence();
    let len: usize = context.state.api_keys.len();
    let mut listing: Vec<ApiKeyMetadata> = Vec::new();
    let mut i: usize = 0;
    proof {
        context.state.api_keys.lemma_sequence();
        assert(pairs.take(0) == Seq::<(String, ApiKeyInfo)>::empty());
        assert(owned_by(infos(contents(pairs.take(0))), caller@) =~= Map::empty());
    }
    while i < len
        invariant
            i <= len,
            len == pairs.len(),
            pairs == context.state.api_keys.sequence(),
            keys_differ(pairs),
            lists_keys(listing@, owned_by(infos(contents(pairs.take(i as int))), caller@)),
        decreases len - i,
    {
        let pair: &(HashedApiKey, ApiKeyInfo) = context.state.api_keys.pair(i);
        let ghost seen = infos(contents(pairs.take(i as int)));
        let ghost next = infos(contents(pairs.take(i + 1)));
        proof {
            lemma_next_pair(pairs, i as int);
            assert(next =~= seen.insert(pair.0@, pair.1@));
        }
        if pair.1.principal == caller {
            let item = ApiKeyMetadata { hashed_key: pair.0.clone(), info: pair.1.clone() };
            insert_in_order(&mut listing, item, Ghost(owned_by(seen, caller@)));
            assert(owned_by(next, caller@) =~= owned_by(seen, caller@).insert(pair.0@, pair.1@));
        } else {
            assert(owned_by(next, caller@) =~= owned_by(seen, caller@));
        }
        i = i + 1;
    }
    proof {
        assert(pairs.take(len as int) == pairs);
    }
    listing
}

/// `a` and `b` have the same items.
pub open spec fn same_listing(a: Seq<ApiKeyMetadata>, b: Seq<ApiKeyMetadata>) -> bool {
    &&& a.len() == b.len()
    &&& forall|i: int|
        0 <= i < a.len() ==> (#[trigger] a[i]).hashed_key@ == b[i].hashed_key@ && a[i].info@
            == b[i].info@
}

/// A listing is determined by the keys it lists.
pub proof fn law_listing_is_determined(
    a: Seq<ApiKeyMetadata>,
    b: Seq<ApiKeyMetadata>,
    keys: Map<Seq<char>, KeyInfo>,
)
    requires
        lists_keys(a, keys),
        lists_keys(b, keys),
    ensures
        same_listing(a, b),
{
    assert forall|n: int| 0 <= n <= a.len() implies n <= b.len() && same_front(a, b, n) by {
        lemma_listings_agree(a, b, keys, n);
    }
    lemma_listings_agree(b, a, keys, b.len() as int);
    assert(same_front(a, b, a.len() as int));
}

/// The first `n` items have the same keys.
spec fn same_front(a: Seq<ApiKeyMetadata>, b: Seq<ApiKeyMetadata>, n: int) -> bool {
    forall|i: int| 0 <= i < n ==> (#[trigger] a[i]).hashed_key@ == b[i].hashed_key@
}

proof fn lemma_listings_agree(
    a: Seq<ApiKeyMetadata>,
    b: Seq<ApiKeyMetadata>,
    keys: Map<Seq<char>, KeyInfo>,
    n: int,
)
    requires
        lists_keys(a, keys),
        lists_keys(b, keys),
        0 <= n <= a.len(),
    ensures
        n <= b.len(),
        same_front(a, b, n),
    decreases n,
{
    if n > 0 {
        lemma_listings_agree(a, b, keys, n - 1);
        let key = a[n - 1].hashed_key@;
        assert(keys.contains_key(key));
        let j = choose|j: int| 0 <= j < b.len() && (#[trigger] b[j]).hashed_key@ == key;
        if j < n - 1 {
            assert(a[j].hashed_key@ == b[j].hashed_key@);
            lemma_text_total(key, key);
            assert(text_before(a[j].hashed_key@, a[n - 1].hashed_key@));
        } else if j > n - 1 {
            let other = b[n - 1].hashed_key@;
            assert(keys.contains_key(other));
            let i = choose|i: int| 0 <= i < a.len() && (#[trigger] a[i]).hashed_key@ == other;
            lemma_text_total(other, other);
            lemma_text_total(key, other);
            assert(text_before(b[n - 1].hashed_key@, b[j].hashed_key@));
            if i < n - 1 {
                assert(a[i].hashed_key@ == b[i].hashed_key@);
                assert(text_before(b[i].hashed_key@, b[n - 1].hashed_key@));
            } else if i > n - 1 {
                assert(text_before(a[n - 1].hashed_key@, a[i].hashed_key@));
            }
        }
    }
}

/// A new key is in its owner's listing, with its metadata.
pub proof fn law_created_key_is_listed(
    store: KeyStore,
    digest: Seq<u8>,
    info: KeyInfo,
    listing: Seq<ApiKeyMetadata>,
)
    requires
        lists_keys(listing, store.after_create(digest, info).keys_of(info.principal)),
    ensures
        exists|i: int|
            0 <= i < listing.len() && (#[trigger] listing[i]).hashed_key@ == hex_text(digest)
                && listing[i].info@ == info,
{
    assert(store.after_create(digest, info).keys_of(info.principal).contains_key(
        hex_text(digest),
    ));
}

/// Nobody sees a key of another principal: what is listed for a caller belongs
/// to that caller.
pub proof fn law_listing_shows_own_keys(
    store: KeyStore,
    caller: Seq<u8>,
    listing: Seq<ApiKeyMetadata>,
)
    requires
        lists_keys(listing, store.keys_of(caller)),
    ensures
        forall|i: int| 0 <= i < listing.len() ==> (#[trigger] listing[i]).info@.principal == caller,
{
}

/// Revoking takes back creating: whatever the digest of the random bytes, where
/// the key was new, its owner may revoke it and gets the store as it was.
pub proof fn law_revoke_undoes_create(store: KeyStore, digest: Seq<u8>, info: KeyInfo)
    requires
        !store.keys.contains_key(hex_text(digest)),
    ensures
        !store.after_create(digest, info).is_foreign(info.principal, hex_text(digest)),
        store.after_create(digest, info).after_revoke(info.principal, hex_text(digest)) == store,
{
    assert(store.after_create(digest, info).after_revoke(info.principal, hex_text(digest))
        =~= store);
}

/// A revoked key is gone, and revoking again is answered and does the same as
/// revoking once.
pub proof fn law_revoke_is_idempotent(store: KeyStore, caller: Seq<u8>, hashed_key: Seq<char>)
    ensures
        ({
            let after = store.after_revoke(caller, hashed_key);
            &&& !store.is_foreign(caller, hashed_key) ==> !after.keys.contains_key(hashed_key)
            &&& after.is_foreign(caller, hashed_key) == store.is_foreign(caller, hashed_key)
            &&& after.after_revoke(caller, hashed_key) == after
        }),
{
    let after = store.after_revoke(caller, hashed_key);
    assert(after.after_revoke(caller, hashed_key) =~= after);
}

/// A request to revoke touches at most the one key that it names, and that
/// only for its owner: the keys of every other principal stay as they are, and
/// so does the owner of the store.
pub proof fn law_revoke_leaves_others_alone(
    store: KeyStore,
    caller: Seq<u8>,
    hashed_key: Seq<char>,
    other: Seq<u8>,
    other_key: Seq<char>,
)
    requires
        other != caller,
        other_key != hashed_key,
    ensures
        ({
            let after = store.after_revoke(caller, hashed_key);
            &&& after.keys_of(other) == store.keys_of(other)
            &&& after.keys.contains_key(other_key) == store.keys.contains_key(other_key)
            &&& after.keys[other_key] == store.keys[other_key]
            &&& after.owner == store.owner
        }),
{
    let after = store.after_revoke(caller, hashed_key);
    assert(after.keys_of(other) =~= store.keys_of(other));
}

/// Creating a key leaves the keys of other principals as they are, unless its
/// digest is that of one of them.
pub proof fn law_create_leaves_others_alone(
    store: KeyStore,
    digest: Seq<u8>,
    info: KeyInfo,
    other: Seq<u8>,
)
    requires
        other != info.principal,
        !store.keys_of(other).contains_key(hex_text(digest)),
    ensures
        store.after_create(digest, info).keys_of(other) == store.keys_of(other),
        store.after_create(digest, info).owner == store.owner,
{
    assert(store.after_create(digest, info).keys_of(other) =~= store.keys_of(other));
}

/// What other principals try to revoke is not visible to `caller`: the listing
/// after the request is the listing before.
pub proof fn law_listing_survives_revoking_by_others(
    store: KeyStore,
    caller: Seq<u8>,
    other: Seq<u8>,
    hashed_key: Seq<char>,
    before: Seq<ApiKeyMetadata>,
    after: Seq<ApiKeyMetadata>,
)
    requires
        other != caller,
        lists_keys(before, store.keys_of(caller)),
        lists_keys(after, store.after_revoke(other, hashed_key).keys_of(caller)),
    ensures
        same_listing(before, after),
{
    assert(store.after_revoke(other, hashed_key).keys_of(caller) =~= store.keys_of(caller));
    law_listing_is_determined(before, after, store.keys_of(caller));
}

/// What other principals create is not visible to `caller`: the listing after
/// the creation is the listing before, unless the new digest is in it.
pub proof fn law_listing_survives_creating_by_others(
    store: KeyStore,
    caller: Seq<u8>,
    digest: Seq<u8>,
    info: KeyInfo,
    before: Seq<ApiKeyMetadata>,
    after: Seq<ApiKeyMetadata>,
)
    requires
        info.principal != caller,
        lists_keys(before, store.keys_of(caller)),
        forall|i: int|
            0 <= i < before.len() ==> (#[trigger] before[i]).hashed_key@ != hex_text(digest),
        lists_keys(after, store.after_create(digest, info).keys_of(caller)),
    ensures
        same_listing(before, after),
{
    law_create_leaves_others_alone(store, digest, info, caller);
    law_listing_is_determined(before, after, store.keys_of(caller));
}

/// The store depends on the random bytes of a key through their SHA-256 digest
/// alone: bytes with the same digest leave the same store, so nothing in it
/// tells the raw key.
pub proof fn law_store_knows_only_the_digest(
    store: KeyStore,
    a: Seq<u8>,
    b: Seq<u8>,
    info: KeyInfo,
)
    ensures
        sha256(a) == sha256(b) ==> store.after_create(sha256(a), info) == store.after_create(
            sha256(b),
            info,
        ),
{
}

/// What is stored is no raw key: creating a key with the digest `digest` puts
/// its raw text among the storage keys only for bytes that are their own
/// digest, so never for bytes of another length than a digest's.
pub proof fn law_raw_key_is_not_stored(
    store: KeyStore,
    random_bytes: Seq<u8>,
    digest: Seq<u8>,
    info: KeyInfo,
)
    requires
        store.holds_digests(),
        digest.len() == DIGEST_LENGTH,
    ensures
        ({
            let after = store.after_create(digest, info);
            let raw_key = hex_text(random_bytes);
            &&& after.holds_digests()
            &&& after.keys.contains_key(raw_key) <==> store.keys.contains_key(raw_key)
                || random_bytes == digest
            &&& random_bytes.len() != DIGEST_LENGTH ==> !after.keys.contains_key(raw_key)
        }),
{
    lemma_hex_text(random_bytes);
    lemma_hex_text(digest);
    if hex_text(random_bytes) == hex_text(digest) {
        lemma_hex_text_injective(random_bytes, digest);
    }
}

/// A raw key spells its random bytes in lower-case hexadecimal, two digits a
/// byte, so two raw keys are the same exactly when their random bytes are.
pub proof fn law_raw_key_spells_its_bytes(a: Seq<u8>, b: Seq<u8>)
    ensures
        hex_text(a).len() == 2 * a.len(),
        is_hex_text(hex_text(a)),
        hex_bytes(hex_text(a)) == a,
        hex_text(a) == hex_text(b) <==> a == b,
{
    lemma_hex_text(a);
    lemma_hex_bytes(a);
    lemma_hex_bytes(b);
}

/// Two storage keys are the same exactly when the digests are.
pub proof fn law_storage_key_tells_the_digest(a: Seq<u8>, b: Seq<u8>)
    ensures
        hex_text(sha256(a)) == hex_text(sha256(b)) <==> sha256(a) == sha256(b),
{
    lemma_hex_bytes(sha256(a));
    lemma_hex_bytes(sha256(b));
}

/// A new store holds no key, and knows its owner.
pub proof fn law_new_store_is_empty(owner: Seq<u8>, key: Seq<char>)
    ensures
        !KeyStore::new(owner).keys.contains_key(key),
        KeyStore::new(owner).owner == owner,
{
}

/// Creating a key stores its metadata by the hexadecimal digest, and changes
/// nothing else: every other key, of whomever, stays with its metadata.
pub proof fn law_create_stores_one_key(
    store: KeyStore,
    digest: Seq<u8>,
    info: KeyInfo,
    other_key: Seq<char>,
)
    requires
        other_key != hex_text(digest),
    ensures
        ({
            let after = store.after_create(digest, info);
            &&& after.keys.contains_key(hex_text(digest))
            &&& after.keys[hex_text(digest)] == info
            &&& after.keys.contains_key(other_key) == store.keys.contains_key(other_key)
            &&& after.keys[other_key] == store.keys[other_key]
            &&& after.owner == store.owner
        }),
{
}

/// A request to revoke a key that belongs to another principal is refused and
/// changes nothing. Every other request is granted, and afterwards the key is
/// gone and every other key is as it was.
pub proof fn law_revoke_is_for_the_holder(
    store: KeyStore,
    caller: Seq<u8>,
    hashed_key: Seq<char>,
    other_key: Seq<char>,
)
    requires
        other_key != hashed_key,
    ensures
        ({
            let after = store.after_revoke(caller, hashed_key);
            let refused = store.keys.contains_key(hashed_key) && store.keys[hashed_key].principal
                != caller;
            &&& store.is_foreign(caller, hashed_key) == refused
            &&& refused ==> after == store
            &&& !refused ==> !after.keys.contains_key(hashed_key)
            &&& after.keys.contains_key(other_key) == store.keys.contains_key(other_key)
            &&& after.keys[other_key] == store.keys[other_key]
            &&& after.owner == store.owner
        }),
{
}

/// What is stored of a key is what was given: the holder, the label, every scope
/// in its place, and the time.
pub proof fn law_metadata_is_kept(info: ApiKeyInfo)
    ensures
        info@.principal == info.principal@,
        info@.name == info.name@,
        info@.created == info.created,
        info@.scopes.len() == info.scopes@.len(),
        forall|i: int|
            0 <= i < info.scopes@.len() ==> #[trigger] info@.scopes[i] == info.scopes@[i]@,
{
}

/// A caller's listing holds every key of the caller, with its metadata, and
/// nothing else; no key stands in it twice.
pub proof fn law_listing_is_complete(
    store: KeyStore,
    caller: Seq<u8>,
    listing: Seq<ApiKeyMetadata>,
    key: Seq<char>,
)
    requires
        lists_keys(listing, store.keys_of(caller)),
    ensures
        store.keys.contains_key(key) && store.keys[key].principal == caller <==> exists|i: int|
            0 <= i < listing.len() && (#[trigger] listing[i]).hashed_key@ == key,
        forall|i: int|
            0 <= i < listing.len() ==> (#[trigger] listing[i]).info@
                == store.keys[listing[i].hashed_key@],
        forall|i: int, j: int|
            0 <= i < j < listing.len() ==> (#[trigger] listing[i]).hashed_key@ != (
            #[trigger] listing[j]).hashed_key@,
        forall|i: int, j: int|
            0 <= i < j < listing.len() ==> text_before(
                (#[trigger] listing[i]).hashed_key@,
                (#[trigger] listing[j]).hashed_key@,
            ),
{
    let own = store.keys_of(caller);
    if store.keys.contains_key(key) && store.keys[key].principal == caller {
        assert(own.contains_key(key));
    }
    assert forall|i: int, j: int| 0 <= i < j < listing.len() implies (
    #[trigger] listing[i]).hashed_key@ != (#[trigger] listing[j]).hashed_key@ by {
        lemma_text_total(listing[i].hashed_key@, listing[j].hashed_key@);
    }
}

/// A key that is created at the clock reading `now_ns` is listed for its holder
/// with the holder, the label, the scopes and the time it was created with: the
/// reading itself below 2^63, and beyond that the reading less 2^64.
pub proof fn law_new_key_is_listed_as_asked(
    store: KeyStore,
    digest: Seq<u8>,
    holder: Seq<u8>,
    scopes: Seq<String>,
    name: Seq<char>,
    now_ns: u64,
    listing: Seq<ApiKeyMetadata>,
)
    requires
        lists_keys(
            listing,
            store.after_create(
                digest,
                KeyInfo {
                    principal: holder,
                    scopes: texts(scopes),
                    name,
                    created: timestamp(now_ns),
                },
            ).keys_of(holder),
        ),
    ensures
        exists|i: int|
            {
                &&& 0 <= i < listing.len()
                &&& (#[trigger] listing[i]).hashed_key@ == hex_text(digest)
                &&& listing[i].info.principal@ == holder
                &&& listing[i].info.name@ == name
                &&& listing[i].info.scopes@.len() == scopes.len()
                &&& forall|k: int|
                    0 <= k < scopes.len() ==> (#[trigger] listing[i].info.scopes@[k])@ == scopes[k]@
                &&& now_ns <= i64::MAX ==> listing[i].info.created == now_ns
                &&& (now_ns - listing[i].info.created) % 0x1_0000_0000_0000_0000 == 0
            },
{
    let info = KeyInfo {
        principal: holder,
        scopes: texts(scopes),
        name,
        created: timestamp(now_ns),
    };
    law_created_key_is_listed(store, digest, info, listing);
    law_timestamp_is_the_reading(now_ns);
    let i = choose|i: int|
        0 <= i < listing.len() && (#[trigger] listing[i]).hashed_key@ == hex_text(digest)
            && listing[i].info@ == info;
    assert(listing[i].info@.scopes == texts(scopes));
    assert forall|k: int| 0 <= k < scopes.len() implies (#[trigger] listing[i].info.scopes@[k])@
        == scopes[k]@ by {
        assert(texts(listing[i].info.scopes@)[k] == texts(scopes)[k]);
    }
    assert(texts(listing[i].info.scopes@).len() == texts(scopes).len());
}

/// The text of an error says what happened: a failed request for randomness ends
/// in the reason for the failure.
pub proof fn law_api_key_errors_say_what_happened(error: String)
    ensures
        ApiKeyError::Randomness(error).text() == "randomness request failed: "@ + error@,
        ApiKeyError::Unauthorized.text() == "you can only revoke your own API keys"@,
{
}

} // verus!
