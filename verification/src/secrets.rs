//! Sync credentials and the assistant's API key in the platform's secret
//! store (the Secret Service under KDE). Only secrets live here; URLs are
//! settings.

use vstd::prelude::*;

verus! {

/// Service name of the sync credentials.
pub const SERVICE_SYNC: &'static str = "de.hnsstrk.vergissmeinnicht.sync";
/// Service name of the assistant's API key; a service of its own.
pub const SERVICE_AI: &'static str = "de.hnsstrk.vergissmeinnicht.ai";
/// Key of the sync client id.
pub const KEY_CLIENT_ID: &'static str = "client-id";
/// Key of the sync encryption secret.
pub const KEY_SECRET: &'static str = "encryption-secret";
/// Key of the assistant's API key.
pub const KEY_AI_API_KEY: &'static str = "api-key";

/// What the secret store answered.
#[derive(Debug)]
pub enum StoreAnswer {
    /// The stored value (or, for a write or delete, success).
    Value(String),
    /// There is no such entry.
    NoEntry,
    /// Any other failure, as text.
    Failure(String),
}

/// `keyring::Entry::new(service, key)` then `get_password()`, the answer
/// told apart by variant. It depends on the secret store.
#[verifier::external_body]
fn store_get(service: &str, key: &str) -> (r: StoreAnswer) {
    match keyring::Entry::new(service, key) {
        Err(e) => StoreAnswer::Failure(e.to_string()),
        Ok(entry) => match entry.get_password() {
            Ok(v) => StoreAnswer::Value(v),
            Err(keyring::Error::NoEntry) => StoreAnswer::NoEntry,
            Err(e) => StoreAnswer::Failure(e.to_string()),
        },
    }
}

/// `keyring::Entry::new(service, key)` then `set_password(value)`, a
/// failure as its text. It depends on the secret store.
#[verifier::external_body]
fn store_set(service: &str, key: &str, value: &str) -> (r: Result<(), String>) {
    match keyring::Entry::new(service, key) {
        Err(e) => Err(e.to_string()),
        Ok(entry) => match entry.set_password(value) {
            Ok(()) => Ok(()),
            Err(e) => Err(e.to_string()),
        },
    }
}

/// `keyring::Entry::new(service, key)` then `delete_credential()`; success
/// is `Value` of the empty text. It depends on the secret store.
#[verifier::external_body]
fn store_delete(service: &str, key: &str) -> (r: StoreAnswer) {
    match keyring::Entry::new(service, key) {
        Err(e) => StoreAnswer::Failure(e.to_string()),
        Ok(entry) => match entry.delete_credential() {
            Ok(()) => StoreAnswer::Value(String::new()),
            Err(keyring::Error::NoEntry) => StoreAnswer::NoEntry,
            Err(e) => StoreAnswer::Failure(e.to_string()),
        },
    }
}

/// The result of reading a secret from what the store answered: the value,
/// `None` when there is no entry, or the failure text.
pub open spec fn spec_read_outcome(a: StoreAnswer) -> Result<Option<String>, String> {
    match a {
        StoreAnswer::Value(v) => Ok(Some(v)),
        StoreAnswer::NoEntry => Ok(None),
        StoreAnswer::Failure(m) => Err(m),
    }
}

/// The result of deleting a secret from what the store answered: a
/// missing entry counts as deleted.
pub open spec fn spec_delete_outcome(a: StoreAnswer) -> Result<(), String> {
    match a {
        StoreAnswer::Failure(m) => Err(m),
        _ => Ok(()),
    }
}

/// The result of reading a secret: the value, `None` when there is no
/// entry, or the failure text.
pub fn read_outcome(a: StoreAnswer) -> (r: Result<Option<String>, String>)
    ensures
        r == spec_read_outcome(a),
{
    match a {
        StoreAnswer::Value(v) => Ok(Some(v)),
        StoreAnswer::NoEntry => Ok(None),
        StoreAnswer::Failure(m) => Err(m),
    }
}

/// The result of deleting a secret: a missing entry counts as deleted, so
/// deleting twice is harmless.
pub fn delete_outcome(a: StoreAnswer) -> (r: Result<(), String>)
    ensures
        r == spec_delete_outcome(a),
{
    match a {
        StoreAnswer::Failure(m) => Err(m),
        _ => Ok(()),
    }
}

/// What a write sends to the secret store.
#[derive(Debug)]
pub enum StoreRequest {
    /// Store `value` under `service` and `key`.
    Write { service: String, key: String, value: String },
    /// Delete the entry under `service` and `key`.
    Delete { service: String, key: String },
}

/// The request that writing `value` under `service` and `key` makes: an
/// empty value deletes the entry, any other is stored.
pub fn write_request(service: &str, key: &str, value: &str) -> (r: StoreRequest)
    ensures
        value@.len() == 0 ==> (r matches StoreRequest::Delete { service: s, key: k } && s@
            == service@ && k@ == key@),
        value@.len() > 0 ==> (r matches StoreRequest::Write { service: s, key: k, value: v } && s@
            == service@ && k@ == key@ && v@ == value@),
{
    if value.is_empty() {
        StoreRequest::Delete { service: service.to_owned(), key: key.to_owned() }
    } else {
        StoreRequest::Write {
            service: service.to_owned(),
            key: key.to_owned(),
            value: value.to_owned(),
        }
    }
}

/// Sends a write request to the secret store; what it answers depends on
/// the store.
fn send(req: &StoreRequest) -> (r: Result<(), String>)
    ensures
        req is Delete ==> exists|a: StoreAnswer| r == spec_delete_outcome(a),
{
    match req {
        StoreRequest::Delete { service, key } => delete_outcome(
            store_delete(service.as_str(), key.as_str()),
        ),
        StoreRequest::Write { service, key, value } => store_set(
            service.as_str(),
            key.as_str(),
            value.as_str(),
        ),
    }
}

fn get_in(service: &str, key: &str) -> (r: Result<Option<String>, String>)
    ensures
        exists|a: StoreAnswer| r == spec_read_outcome(a),
{
    read_outcome(store_get(service, key))
}

fn set_in(service: &str, key: &str, value: &str) -> (r: Result<(), String>)
    ensures
        value@.len() == 0 ==> exists|a: StoreAnswer| r == spec_delete_outcome(a),
{
    let req = write_request(service, key, value);
    send(&req)
}

/// Reads a sync credential (service [`SERVICE_SYNC`]); `None` when it is
/// not stored. The answer depends on the secret store.
pub fn get(key: &str) -> (r: Result<Option<String>, String>)
    ensures
        exists|a: StoreAnswer| r == spec_read_outcome(a),
{
    get_in(SERVICE_SYNC, key)
}

/// Writes a sync credential (service [`SERVICE_SYNC`], see
/// [`write_request`]): an empty value deletes the entry, and deleting a
/// missing entry succeeds. The answer depends on the secret store.
pub fn set(key: &str, value: &str) -> (r: Result<(), String>)
    ensures
        value@.len() == 0 ==> exists|a: StoreAnswer| r == spec_delete_outcome(a),
{
    set_in(SERVICE_SYNC, key, value)
}

/// Reads the assistant's API key (service [`SERVICE_AI`], key
/// [`KEY_AI_API_KEY`]); `None` when it is not stored.
pub fn get_ai_api_key() -> (r: Result<Option<String>, String>)
    ensures
        exists|a: StoreAnswer| r == spec_read_outcome(a),
{
    get_in(SERVICE_AI, KEY_AI_API_KEY)
}

/// Writes the assistant's API key (service [`SERVICE_AI`], key
/// [`KEY_AI_API_KEY`]); an empty value deletes it.
pub fn set_ai_api_key(value: &str) -> (r: Result<(), String>)
    ensures
        value@.len() == 0 ==> exists|a: StoreAnswer| r == spec_delete_outcome(a),
{
    set_in(SERVICE_AI, KEY_AI_API_KEY, value)
}

} // verus!
