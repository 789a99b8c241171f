//! Resolving a key through aliases, the bundle, then the environment.

use vstd::prelude::*;
use vstd::string::StringExecFns;
use crate::alias::AliasMap;
use crate::bundle::Bundle;
use crate::error::VaultError;
use crate::strmap::lookup;
use crate::text::owned;

verus! {

/// Where a resolved value came from.
#[derive(Debug, Clone, Copy, PartialEq, Eq)]
pub enum ResolveSource {
    Alias,
    Bundle,
    Environment,
}

/// A resolved key, its value and where the value came from.
#[derive(Debug)]
pub struct Resolved {
    pub key: String,
    pub value: String,
    pub source: ResolveSource,
}

/// Resolves `key`: through an alias to a secret of the bundle, else directly
/// in the bundle, else (with `env_fallback`) from the environment variable of
/// that name, whose value the caller passes as `env_value` (`None` when unset).
pub fn resolve(key: &str, bundle: &Bundle, aliases: &AliasMap, env_fallback: bool, env_value: Option<&str>) -> (r: Result<Resolved, VaultError>)
    ensures
        ({
            let via_alias = match lookup(aliases.entries@, key@) {
                Some(c) => lookup(bundle.secrets@, c) is Some,
                None => false,
            };
            let direct = lookup(bundle.secrets@, key@);
            if via_alias {
                let c = lookup(aliases.entries@, key@)->0;
                r matches Ok(res) && res.key@ == c && Some(res.value@) == lookup(bundle.secrets@, c)
                    && res.source == ResolveSource::Alias
            } else if direct is Some {
                r matches Ok(res) && res.key@ == key@ && Some(res.value@) == direct
                    && res.source == ResolveSource::Bundle
            } else if env_fallback && env_value is Some {
                r matches Ok(res) && res.key@ == key@ && res.value@ == env_value->0@
                    && res.source == ResolveSource::Environment
            } else {
                r matches Err(e) && e is NotFound && e.msg() == "key '"@ + key@ + "' could not be resolved"@
            }
        }),
{
    if let Some(canonical) = aliases.resolve(key) {
        if let Some(value) = bundle.secrets.get(canonical.as_str()) {
            return Ok(Resolved { key: canonical.clone(), value: value.clone(), source: ResolveSource::Alias });
        }
    }
    if let Some(value) = bundle.secrets.get(key) {
        return Ok(Resolved { key: owned(key), value: value.clone(), source: ResolveSource::Bundle });
    }
    if env_fallback {
        if let Some(v) = env_value {
            return Ok(Resolved { key: owned(key), value: owned(v), source: ResolveSource::Environment });
        }
    }
    Err(VaultError::NotFound(String::from_str("key '").concat(key).concat("' could not be resolved")))
}

} // verus!
