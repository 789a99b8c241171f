//! The vault configuration file's contents and their validation.

use vstd::prelude::*;
use vstd::string::StringExecFns;
use crate::error::VaultError;
use crate::text::{blank, is_blank};

verus! {

/// The configuration of a vault: its metadata, GPG settings and secret files.
#[derive(Debug, Clone, PartialEq, Eq)]
pub struct VaultConfig {
    pub vault: VaultMeta,
    pub gpg: GpgConfig,
    pub secrets: Vec<SecretEntry>,
}

/// A vault's name, description and format version.
#[derive(Debug, Clone, PartialEq, Eq)]
pub struct VaultMeta {
    pub name: String,
    pub description: Option<String>,
    pub version: u32,
}

/// The GPG key, output armoring and GPG home directory.
#[derive(Debug, Clone, PartialEq, Eq)]
pub struct GpgConfig {
    pub key_id: String,
    pub armor: bool,
    pub gpg_home: String,
}

/// A secret kept in a file.
#[derive(Debug, Clone, PartialEq, Eq)]
pub struct SecretEntry {
    pub name: String,
    pub file: String,
    pub description: Option<String>,
}

/// The GPG home used when the configuration names none.
pub fn default_gpg_home() -> (r: String)
    ensures
        r@ == "~/.gnupg"@,
{
    String::from_str("~/.gnupg")
}

/// What `format!("{:?}", s)` writes for a string: `s` between double quotes,
/// with the characters that need it escaped.
pub uninterp spec fn debug_text(s: Seq<char>) -> Seq<char>;

/// `<str as Debug>::fmt`, through `format!("{:?}", s)`; the text is named `debug_text`.
#[verifier::external_body]
fn debug_string(s: &str) -> (r: String)
    ensures
        r@ == debug_text(s@),
{
    format!("{:?}", s)
}

/// Neither the name nor the file of the entry is blank.
pub open spec fn entry_ok(e: SecretEntry) -> bool {
    !is_blank(e.name@) && !is_blank(e.file@)
}

/// The first secret entry with a blank name or file, if any.
pub open spec fn first_bad_entry(s: Seq<SecretEntry>) -> Option<int> {
    if exists|i: int| 0 <= i < s.len() && !entry_ok(#[trigger] s[i]) {
        Some(choose|i: int| 0 <= i < s.len() && !entry_ok(s[i])
            && forall|j: int| 0 <= j < i ==> entry_ok(#[trigger] s[j]))
    } else {
        None
    }
}

impl VaultConfig {
    /// Checks that the vault name and the GPG key are not blank, and that no
    /// secret entry has a blank name or file; reports the first problem.
    pub fn validate(&self) -> (r: Result<(), VaultError>)
        ensures
            is_blank(self.vault.name@) ==> (r matches Err(e) && e is Validation
                && e.msg() == "vault.name must not be empty"@),
            !is_blank(self.vault.name@) && is_blank(self.gpg.key_id@) ==> (r matches Err(e) && e is Validation
                && e.msg() == "gpg.key_id must not be empty"@),
            !is_blank(self.vault.name@) && !is_blank(self.gpg.key_id@) ==> match first_bad_entry(self.secrets@) {
                Some(i) => r matches Err(e) && e is Validation && e.msg() == "secret entry has empty name or file: "@
                    + debug_text(self.secrets@[i].name@),
                None => r is Ok,
            },
    {
        if blank(self.vault.name.as_str()) {
            return Err(VaultError::Validation(String::from_str("vault.name must not be empty")));
        }
        if blank(self.gpg.key_id.as_str()) {
            return Err(VaultError::Validation(String::from_str("gpg.key_id must not be empty")));
        }
        let ghost s = self.secrets@;
        let mut i: usize = 0;
        while i < self.secrets.len()
            invariant
                s == self.secrets@,
                !is_blank(self.vault.name@),
                !is_blank(self.gpg.key_id@),
                i <= s.len(),
                forall|j: int| 0 <= j < i ==> entry_ok(#[trigger] s[j]),
            decreases s.len() - i,
        {
            let e = &self.secrets[i];
            if blank(e.name.as_str()) || blank(e.file.as_str()) {
                assert(!entry_ok(s[i as int]));
                let ghost c = choose|c: int| 0 <= c < s.len() && !entry_ok(s[c])
                    && forall|j: int| 0 <= j < c ==> entry_ok(#[trigger] s[j]);
                assert(c == i as int) by {
                    if c < i {
                    } else if c > i {
                        assert(!entry_ok(s[i as int]));
                    }
                }
                let m = String::from_str("secret entry has empty name or file: ").concat(
                    debug_string(e.name.as_str()).as_str(),
                );
                return Err(VaultError::Validation(m));
            }
            assert(entry_ok(s[i as int]));
            i = i + 1;
        }
        Ok(())
    }
}

} // verus!
