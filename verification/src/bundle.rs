//! A named bundle of secrets.

use vstd::prelude::*;
use crate::clock::{format_rfc3339, now_seconds, rfc3339_text};
use crate::error::VaultError;
use crate::strmap::{StrMap, lookup, insert_spec, remove_spec, has_key};
use crate::text::{i64_to_string, int_text, owned};
use vstd::string::StringExecFns;

verus! {

/// A bundle: a name, a description and its secrets, keyed by name.
#[derive(Debug)]
pub struct Bundle {
    pub name: String,
    pub description: Option<String>,
    pub secrets: StrMap<String>,
    pub created_at: String,
    pub updated_at: String,
}

/// The message of the error for a secret `key` missing from bundle `name`.
pub open spec fn missing_secret_msg(key: Seq<char>, name: Seq<char>) -> Seq<char> {
    "Secret '"@ + key + "' not found in bundle '"@ + name + "'"@
}

pub fn missing_secret_error(key: &str, name: &str) -> (r: VaultError)
    ensures
        r is NotFound,
        r.msg() == missing_secret_msg(key@, name@),
{
    let m = String::from_str("Secret '").concat(key).concat("' not found in bundle '").concat(name).concat("'");
    VaultError::NotFound(m)
}

/// The time stamp written for `secs` seconds after the Unix epoch: its RFC 3339
/// form (UTC, whole seconds), or the number of seconds when `chrono` cannot
/// write it.
pub open spec fn stamp_text(secs: i64) -> Seq<char> {
    match rfc3339_text(secs) {
        Some(t) => t,
        None => int_text(secs as int),
    }
}

/// The stamp of the current time (see `stamp_text`).
fn now_stamp() -> (r: String)
    ensures
        exists|secs: i64| secs >= 0 && r@ == #[trigger] stamp_text(secs),
{
    let secs = now_seconds();
    let r = match format_rfc3339(secs) {
        Some(t) => t,
        None => i64_to_string(secs),
    };
    assert(r@ == stamp_text(secs));
    r
}

impl Bundle {
    /// An empty bundle created at time `now`.
    pub fn new_at(name: &str, description: Option<String>, now: String) -> (r: Bundle)
        ensures
            r.name@ == name@,
            r.description == description,
            r.secrets@.len() == 0,
            r.created_at == now,
            r.updated_at == now,
    {
        Bundle {
            name: owned(name),
            description,
            secrets: StrMap::new(),
            created_at: now.clone(),
            updated_at: now,
        }
    }

    /// An empty bundle stamped with the current time.
    pub fn new(name: &str, description: Option<String>) -> (r: Bundle)
        ensures
            r.name@ == name@,
            r.description == description,
            r.secrets@.len() == 0,
            r.created_at == r.updated_at,
            exists|secs: i64| secs >= 0 && r.created_at@ == #[trigger] stamp_text(secs),
    {
        Bundle::new_at(name, description, now_stamp())
    }

    /// Stores `value` under `key`; `updated_at` becomes `now`.
    pub fn add_secret_at(&mut self, key: &str, value: &str, now: String)
        ensures
            final(self).secrets@ == insert_spec(old(self).secrets@, key@, value@),
            final(self).name == old(self).name,
            final(self).description == old(self).description,
            final(self).created_at == old(self).created_at,
            final(self).updated_at == now,
    {
        let v = owned(value);
        self.secrets.insert(owned(key), v);
        self.updated_at = now;
    }

    /// Stores `value` under `key`, stamping `updated_at` with the current time.
    pub fn add_secret(&mut self, key: &str, value: &str)
        ensures
            final(self).secrets@ == insert_spec(old(self).secrets@, key@, value@),
            final(self).name == old(self).name,
            final(self).description == old(self).description,
            final(self).created_at == old(self).created_at,
            exists|secs: i64| secs >= 0 && final(self).updated_at@ == #[trigger] stamp_text(secs),
    {
        let now = now_stamp();
        self.add_secret_at(key, value, now);
    }

    /// Removes the secret `key`; `updated_at` becomes `now`. Fails, leaving the
    /// bundle as it was, when there is no such secret.
    pub fn remove_secret_at(&mut self, key: &str, now: String) -> (r: Result<(), VaultError>)
        ensures
            r is Ok <==> has_key(old(self).secrets@, key@),
            r is Ok ==> final(self).secrets@ == remove_spec(old(self).secrets@, key@)
                && final(self).updated_at == now,
            r matches Err(e) ==> *final(self) == *old(self) && e is NotFound
                && e.msg() == missing_secret_msg(key@, old(self).name@),
            final(self).name == old(self).name,
            final(self).description == old(self).description,
            final(self).created_at == old(self).created_at,
    {
        if !self.secrets.contains_key(key) {
            return Err(missing_secret_error(key, self.name.as_str()));
        }
        self.secrets.remove(key);
        self.updated_at = now;
        Ok(())
    }

    /// Removes the secret `key`, stamping `updated_at` with the current time.
    pub fn remove_secret(&mut self, key: &str) -> (r: Result<(), VaultError>)
        ensures
            r is Ok <==> has_key(old(self).secrets@, key@),
            r is Ok ==> final(self).secrets@ == remove_spec(old(self).secrets@, key@)
                && exists|secs: i64| secs >= 0 && final(self).updated_at@ == #[trigger] stamp_text(secs),
            r matches Err(e) ==> *final(self) == *old(self) && e is NotFound
                && e.msg() == missing_secret_msg(key@, old(self).name@),
            final(self).name == old(self).name,
            final(self).description == old(self).description,
            final(self).created_at == old(self).created_at,
    {
        if !self.secrets.contains_key(key) {
            return Err(missing_secret_error(key, self.name.as_str()));
        }
        let now = now_stamp();
        self.remove_secret_at(key, now)
    }

    /// The value of the secret `key`.
    pub fn get_secret(&self, key: &str) -> (r: Result<&String, VaultError>)
        ensures
            match r {
                Ok(v) => lookup(self.secrets@, key@) == Some(v@),
                Err(e) => lookup(self.secrets@, key@) is None && e is NotFound
                    && e.msg() == missing_secret_msg(key@, self.name@),
            },
    {
        match self.secrets.get(key) {
            Some(v) => Ok(v),
            None => Err(missing_secret_error(key, self.name.as_str())),
        }
    }
}

} // verus!
