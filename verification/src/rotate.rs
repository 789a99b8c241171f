//! Re-encrypting every secret of a vault for a new recipient.

use vstd::prelude::*;
use vstd::string::StringExecFns;
use crate::error::VaultError;
use crate::strmap::{StrMap, keys_of};
use crate::text::{decimal, owned, push_str, usize_to_string};

verus! {

/// What to rotate: the vault and the old and new recipients.
pub struct RotateOptions {
    pub vault_path: String,
    pub old_recipient: String,
    pub new_recipient: String,
    pub dry_run: bool,
}

/// An event for the audit trail: its kind and a message.
pub struct AuditEvent {
    pub kind: String,
    pub message: String,
}

impl View for AuditEvent {
    type V = (Seq<char>, Seq<char>);

    open spec fn view(&self) -> (Seq<char>, Seq<char>) {
        (self.kind@, self.message@)
    }
}

/// A result carrying text, by the view of its text.
pub open spec fn text_result(r: Result<String, VaultError>) -> Result<Seq<char>, VaultError> {
    match r {
        Ok(t) => Ok(t@),
        Err(e) => Err(e),
    }
}

/// Encryption for a recipient, as a vault's owner provides it. An
/// implementation says, by `decrypts` and `encrypts`, which results its calls
/// can give; one that does not define them claims nothing about its results.
pub trait CryptoBackend {
    /// `r` is a result that decrypting `c` with `who`'s key can give.
    open spec fn decrypts(&self, c: Seq<char>, who: Seq<char>, r: Result<Seq<char>, VaultError>) -> bool {
        true
    }

    /// `r` is a result that encrypting `p` for `who` can give.
    open spec fn encrypts(&self, p: Seq<char>, who: Seq<char>, r: Result<Seq<char>, VaultError>) -> bool {
        true
    }

    /// The plaintext of `ciphertext`, decrypted with `recipient`'s key.
    fn decrypt(&self, ciphertext: &String, recipient: &str) -> (r: Result<String, VaultError>)
        ensures
            self.decrypts(ciphertext@, recipient@, text_result(r)),
    ;

    /// `plaintext` encrypted for `recipient`.
    fn encrypt(&self, plaintext: &String, recipient: &str) -> (r: Result<String, VaultError>)
        ensures
            self.encrypts(plaintext@, recipient@, text_result(r)),
    ;
}

/// `new_v` is the encryption for `to` of a plaintext that decrypting `old_v`
/// with `from`'s key gave.
pub open spec fn reencrypted<C: CryptoBackend>(crypto: C, old_v: Seq<char>, new_v: Seq<char>, from: Seq<char>, to: Seq<char>) -> bool {
    exists|p: Seq<char>| crypto.decrypts(old_v, from, Ok(p)) && crypto.encrypts(p, to, Ok(new_v))
}

/// Decrypting `old_v` with `from`'s key gave `e`, or it gave a plaintext whose
/// encryption for `to` gave `e`.
pub open spec fn failed_with<C: CryptoBackend>(crypto: C, old_v: Seq<char>, from: Seq<char>, to: Seq<char>, e: VaultError) -> bool {
    crypto.decrypts(old_v, from, Err(e)) || exists|p: Seq<char>| crypto.decrypts(old_v, from, Ok(p)) && crypto.encrypts(
        p,
        to,
        Err(e),
    )
}

/// The first `j` secrets of `after` are those of `before` re-encrypted, and
/// the others are as they were.
pub open spec fn rotated_up_to<C: CryptoBackend>(crypto: C, before: Seq<(Seq<char>, Seq<char>)>, after: Seq<(Seq<char>, Seq<char>)>, from: Seq<char>, to: Seq<char>, j: int) -> bool {
    &&& after.len() == before.len()
    &&& keys_of(after) == keys_of(before)
    &&& forall|i: int| 0 <= i < j ==> #[trigger] reencrypted(crypto, before[i].1, after[i].1, from, to)
    &&& forall|i: int| j <= i < before.len() ==> #[trigger] after[i] == before[i]
}

/// The audit event of a dry run over `n` secrets.
pub open spec fn dry_run_event(n: nat, from: Seq<char>, to: Seq<char>) -> (Seq<char>, Seq<char>) {
    ("rotate_dry_run"@, "Would rotate "@ + decimal(n) + " secrets from "@ + from + " to "@ + to)
}

/// A rotation of `before` into `after` stopped at secret `j` with error `e`:
/// the crypto call for it failed with `e`, the secrets before it were
/// re-encrypted, the others left as they were, and the audit trail went from
/// `a0` to `a1` by one event per rotated secret, with no completion event.
pub open spec fn stopped_at<C: CryptoBackend>(crypto: C, before: Seq<(Seq<char>, Seq<char>)>, after: Seq<(Seq<char>, Seq<char>)>, a0: Seq<AuditEvent>, a1: Seq<AuditEvent>, from: Seq<char>, to: Seq<char>, e: VaultError, j: int) -> bool {
    &&& 0 <= j < before.len()
    &&& failed_with(crypto, before[j].1, from, to, e)
    &&& rotated_up_to(crypto, before, after, from, to, j)
    &&& a1.map_values(|x: AuditEvent| x@) == a0.map_values(|x: AuditEvent| x@) + keys_of(before).take(j).map_values(
        |k: Seq<char>| secret_event(k),
    )
}

/// The audit event of one rotated secret.
pub open spec fn secret_event(key: Seq<char>) -> (Seq<char>, Seq<char>) {
    ("rotate_secret"@, "Rotated secret '"@ + key + "' to new recipient"@)
}

/// The audit event of a completed rotation.
pub open spec fn complete_event(rotated: nat, total: nat, path: Seq<char>) -> (Seq<char>, Seq<char>) {
    ("rotate_complete"@, "Rotated "@ + decimal(rotated) + "/"@ + decimal(total) + " secrets in vault '"@ + path + "'"@)
}

fn event(kind: &str, message: String) -> (r: AuditEvent)
    ensures
        r@ == (kind@, message@),
{
    AuditEvent { kind: owned(kind), message }
}

fn push_event(audit: &mut Vec<AuditEvent>, e: AuditEvent)
    ensures
        final(audit)@.map_values(|x: AuditEvent| x@) == old(audit)@.map_values(|x: AuditEvent| x@).push(e@),
{
    let ghost before = audit@;
    audit.push(e);
    assert(audit@.map_values(|x: AuditEvent| x@) =~= before.map_values(|x: AuditEvent| x@).push(e@));
}

/// Re-encrypts every secret (key to ciphertext) of a loaded vault from the old
/// recipient to the new one, in order: each ciphertext is decrypted with the
/// old recipient's key and the plaintext encrypted for the new recipient,
/// which becomes the stored value; an audit event is recorded per secret and
/// one at the end, and the count is returned. A dry run changes nothing and
/// records a single event. The first failure of `crypto` is returned as is,
/// with the secrets before it rotated, the later ones untouched and no
/// completion event.
pub fn rotate_vault_key<C: CryptoBackend>(opts: &RotateOptions, secrets: &mut StrMap<String>, crypto: &C, audit: &mut Vec<AuditEvent>) -> (r: Result<usize, VaultError>)
    ensures
        keys_of(final(secrets)@) == keys_of(old(secrets)@),
        opts.dry_run ==> r == Ok::<usize, VaultError>(old(secrets)@.len() as usize) && final(secrets)@ == old(secrets)@
            && final(audit)@.map_values(|x: AuditEvent| x@) == old(audit)@.map_values(|x: AuditEvent| x@).push(
                dry_run_event(old(secrets)@.len(), opts.old_recipient@, opts.new_recipient@)),
        !opts.dry_run && r is Ok ==> r == Ok::<usize, VaultError>(old(secrets)@.len() as usize)
            && rotated_up_to(*crypto, old(secrets)@, final(secrets)@, opts.old_recipient@, opts.new_recipient@,
                old(secrets)@.len() as int)
            && final(audit)@.map_values(|x: AuditEvent| x@) == old(audit)@.map_values(|x: AuditEvent| x@)
                + keys_of(old(secrets)@).map_values(|k: Seq<char>| secret_event(k))
                + seq![complete_event(old(secrets)@.len(), old(secrets)@.len(), opts.vault_path@)],
        !opts.dry_run ==> (r matches Err(e) ==> exists|j: int| #[trigger] stopped_at(*crypto, old(secrets)@,
            final(secrets)@, old(audit)@, final(audit)@, opts.old_recipient@, opts.new_recipient@, e, j)),
{
    let secret_count = secrets.len();
    if opts.dry_run {
        let m = String::from_str("Would rotate ").concat(usize_to_string(secret_count).as_str()).concat(
            " secrets from ").concat(opts.old_recipient.as_str()).concat(" to ").concat(opts.new_recipient.as_str());
        push_event(audit, event("rotate_dry_run", m));
        return Ok(secret_count);
    }
    let ghost orig = secrets@;
    let ghost ks = keys_of(secrets@);
    let ghost start = audit@.map_values(|x: AuditEvent| x@);
    let ghost from = opts.old_recipient@;
    let ghost to = opts.new_recipient@;
    let mut rotated: usize = 0;
    let mut i: usize = 0;
    let mut failure: Option<VaultError> = None;
    while i < secret_count
        invariant_except_break
            failure is None,
        invariant
            secret_count == orig.len(),
            !opts.dry_run,
            orig == old(secrets)@,
            ks == keys_of(orig),
            from == opts.old_recipient@,
            to == opts.new_recipient@,
            start == old(audit)@.map_values(|x: AuditEvent| x@),
            rotated_up_to(*crypto, orig, secrets@, from, to, i as int),
            i <= secret_count,
            rotated == i,
            audit@.map_values(|x: AuditEvent| x@) == start + ks.take(i as int).map_values(|k: Seq<char>| secret_event(k)),
        ensures
            rotated_up_to(*crypto, orig, secrets@, from, to, i as int),
            i <= secret_count,
            rotated == i,
            audit@.map_values(|x: AuditEvent| x@) == start + ks.take(i as int).map_values(|k: Seq<char>| secret_event(k)),
            failure is None ==> i == secret_count,
            failure matches Some(e) ==> i < secret_count && failed_with(*crypto, orig[i as int].1, from, to, e),
        decreases secret_count - i,
    {
        assert(secrets@[i as int] == orig[i as int]);
        let plaintext = match crypto.decrypt(secrets.value_at(i), opts.old_recipient.as_str()) {
            Ok(p) => p,
            Err(e) => {
                assert(failed_with(*crypto, orig[i as int].1, from, to, e));
                failure = Some(e);
                break;
            },
        };
        let ciphertext = match crypto.encrypt(&plaintext, opts.new_recipient.as_str()) {
            Ok(c) => c,
            Err(e) => {
                assert(crypto.decrypts(orig[i as int].1, from, Ok(plaintext@)));
                assert(failed_with(*crypto, orig[i as int].1, from, to, e));
                failure = Some(e);
                break;
            },
        };
        let ghost before = secrets@;
        secrets.set_value(i, ciphertext);
        proof {
            assert(crypto.decrypts(orig[i as int].1, from, Ok(plaintext@)));
            assert(crypto.encrypts(plaintext@, to, Ok(secrets@[i as int].1)));
            assert(reencrypted(*crypto, orig[i as int].1, secrets@[i as int].1, from, to));
            assert(keys_of(secrets@) =~= keys_of(before));
            assert forall|k: int| 0 <= k < i + 1 implies #[trigger] reencrypted(*crypto, orig[k].1, secrets@[k].1, from, to) by {
                if k < i {
                    assert(secrets@[k] == before[k]);
                }
            }
            assert forall|k: int| i + 1 <= k < orig.len() implies #[trigger] secrets@[k] == orig[k] by {
                assert(secrets@[k] == before[k]);
            }
        }
        let key = secrets.key_at(i);
        let m = String::from_str("Rotated secret '").concat(key.as_str()).concat("' to new recipient");
        push_event(audit, event("rotate_secret", m));
        assert(ks.take(i + 1).map_values(|k: Seq<char>| secret_event(k)) =~= ks.take(i as int).map_values(
            |k: Seq<char>| secret_event(k)).push(secret_event(ks[i as int])));
        rotated = rotated + 1;
        i = i + 1;
    }
    match failure {
        Some(e) => {
            proof {
                let j = i as int;
                assert(stopped_at(*crypto, old(secrets)@, secrets@, old(audit)@,
                    audit@, opts.old_recipient@, opts.new_recipient@, e, j));
            }
            return Err(e);
        },
        None => {},
    }
    assert(ks.take(secret_count as int) =~= ks);
    let mut m = String::from_str("Rotated ");
    push_str(&mut m, usize_to_string(rotated).as_str());
    push_str(&mut m, "/");
    push_str(&mut m, usize_to_string(secret_count).as_str());
    push_str(&mut m, " secrets in vault '");
    push_str(&mut m, opts.vault_path.as_str());
    push_str(&mut m, "'");
    push_event(audit, event("rotate_complete", m));
    Ok(rotated)
}

} // verus!
