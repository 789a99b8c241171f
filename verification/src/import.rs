//! Importing secrets: the manifest format, and `KEY=value` environment files.

use vstd::prelude::*;
use vstd::string::StringExecFns;
use crate::error::VaultError;
use crate::lines::{lines, lines_of};
use crate::text::{chars_of, find_from, find_from_exec, str_eq, strip_char, sub_string, trim, trim_matches, trimmed};

verus! {

/// An import manifest: its format name, version and secrets.
#[derive(Debug, Clone)]
pub struct ImportManifest {
    pub format: String,
    pub version: Option<u32>,
    pub secrets: Vec<ImportEntry>,
}

/// One secret to import.
#[derive(Debug, Clone)]
pub struct ImportEntry {
    pub key: String,
    pub value: String,
    pub tags: Option<Vec<String>>,
    pub description: Option<String>,
}

/// The options of the import command.
#[derive(Debug, Clone)]
pub struct ImportArgs {
    pub file: String,
    pub format: String,
    pub vault: Option<String>,
    pub dry_run: bool,
}

impl ImportArgs {
    /// The vault file to import into: the one given, or `vault.toml`.
    pub fn vault_path(&self) -> (r: String)
        ensures
            match self.vault {
                Some(v) => r@ == v@,
                None => r@ == "vault.toml"@,
            },
    {
        match &self.vault {
            Some(v) => crate::text::owned(v.as_str()),
            None => default_vault_path(),
        }
    }

    /// What a dry run reports: the file, the format, and that nothing is saved.
    pub fn dry_run_lines(&self) -> (r: Vec<String>)
        ensures
            r@.map_values(|l: String| l@) == seq!["[dry-run] Reading from: "@ + self.file@, "[dry-run] Format: "@
                + self.format@, "[dry-run] No changes will be saved."@],
    {
        let mut out: Vec<String> = Vec::new();
        out.push(String::from_str("[dry-run] Reading from: ").concat(self.file.as_str()));
        out.push(String::from_str("[dry-run] Format: ").concat(self.format.as_str()));
        out.push(String::from_str("[dry-run] No changes will be saved."));
        assert(out@.map_values(|l: String| l@) =~= seq!["[dry-run] Reading from: "@ + self.file@, "[dry-run] Format: "@
            + self.format@, "[dry-run] No changes will be saved."@]);
        out
    }
}

/// What a completed import reports.
pub fn import_summary(count: usize, vault_path: &str) -> (r: String)
    ensures
        r@ == "Successfully imported "@ + crate::text::decimal(count as nat) + " secret(s) into "@ + vault_path@,
{
    let mut s = String::from_str("Successfully imported ");
    crate::text::push_str(&mut s, crate::text::usize_to_string(count).as_str());
    crate::text::push_str(&mut s, " secret(s) into ");
    crate::text::push_str(&mut s, vault_path);
    s
}

/// The kinds of file the import command reads.
#[derive(Debug, Clone, Copy, PartialEq, Eq)]
pub enum ImportKind {
    Toml,
    Env,
}

/// Checks that a manifest is in the `vaultkey` format.
pub fn check_manifest(manifest: &ImportManifest) -> (r: Result<(), VaultError>)
    ensures
        manifest.format@ == "vaultkey"@ ==> r is Ok,
        manifest.format@ != "vaultkey"@ ==> (r matches Err(e) && e is Config
            && e.msg() == "Unsupported import format: "@ + manifest.format@),
{
    if str_eq(manifest.format.as_str(), "vaultkey") {
        Ok(())
    } else {
        Err(VaultError::Config(String::from_str("Unsupported import format: ").concat(manifest.format.as_str())))
    }
}

/// The kind of file the import command's `format` names: `toml` or `env`.
pub fn import_kind(format: &str) -> (r: Result<ImportKind, VaultError>)
    ensures
        format@ == "toml"@ ==> r == Ok::<ImportKind, VaultError>(ImportKind::Toml),
        format@ == "env"@ ==> r == Ok::<ImportKind, VaultError>(ImportKind::Env),
        format@ != "toml"@ && format@ != "env"@ ==> (r matches Err(e) && e is Config
            && e.msg() == "Unknown import format: '"@ + format@ + "'. Use 'toml' or 'env'."@),
{
    proof {
        reveal_strlit("toml");
        reveal_strlit("env");
        assert("toml"@.len() == 4 && "env"@.len() == 3);
    }
    if str_eq(format, "toml") {
        Ok(ImportKind::Toml)
    } else if str_eq(format, "env") {
        Ok(ImportKind::Env)
    } else {
        let m = String::from_str("Unknown import format: '").concat(format).concat("'. Use 'toml' or 'env'.");
        Err(VaultError::Config(m))
    }
}

/// The vault file imported into when none is given.
pub fn default_vault_path() -> (r: String)
    ensures
        r@ == "vault.toml"@,
{
    String::from_str("vault.toml")
}

/// The key and value of one line of an environment file: the line trimmed,
/// skipped when empty or a `#` comment or without `=`; split at the first `=`;
/// the key trimmed, the value trimmed and stripped of surrounding `"`.
pub open spec fn env_pair(line: Seq<char>) -> Option<(Seq<char>, Seq<char>)> {
    let t = trimmed(line);
    if t.len() == 0 || t[0] == '#' {
        None
    } else {
        match find_from(t, "="@, 0) {
            Some(i) => Some((trimmed(t.take(i)), strip_char(trimmed(t.skip(i + 1)), '"'))),
            None => None,
        }
    }
}

/// The pairs of the lines that hold one, in order.
pub open spec fn env_pairs(ls: Seq<Seq<char>>) -> Seq<(Seq<char>, Seq<char>)>
    decreases ls.len(),
{
    if ls.len() == 0 {
        Seq::empty()
    } else {
        let rest = env_pairs(ls.drop_last());
        match env_pair(ls.last()) {
            Some(p) => rest.push(p),
            None => rest,
        }
    }
}

fn env_pair_exec(line: &str) -> (r: Option<(String, String)>)
    ensures
        match r {
            Some(p) => env_pair(line@) == Some((p.0@, p.1@)),
            None => env_pair(line@) is None,
        },
{
    proof { reveal_strlit("="); }
    let t = trim(line);
    let cs = chars_of(t.as_str());
    let _n = cs.len();
    if cs.len() == 0 || cs[0] == '#' {
        return None;
    }
    let mut eq: Vec<char> = Vec::new();
    eq.push('=');
    assert(eq@ =~= "="@);
    match find_from_exec(&cs, &eq, 0) {
        Some(i) => {
            proof {
                crate::text::lemma_find_from_some(cs@, eq@, 0);
            }
            assert(i < cs@.len());
            let k = sub_string(&cs, 0, i);
            let v = sub_string(&cs, i + 1, cs.len());
            assert(k@ =~= t@.take(i as int));
            assert(v@ =~= t@.skip(i + 1));
            let key = trim(k.as_str());
            let vt = trim(v.as_str());
            let value = trim_matches(vt.as_str(), '"');
            Some((key, value))
        },
        None => None,
    }
}

/// The key/value pairs of an environment file, in order (see `env_pair`).
pub fn env_import_pairs(content: &str) -> (r: Vec<(String, String)>)
    ensures
        r@.map_values(|p: (String, String)| (p.0@, p.1@)) == env_pairs(lines_of(content@)),
{
    let ls = lines(content);
    let ghost lv = ls@.map_values(|x: String| x@);
    let mut out: Vec<(String, String)> = Vec::new();
    let mut i: usize = 0;
    assert(lv.take(0) =~= Seq::<Seq<char>>::empty());
    while i < ls.len()
        invariant
            lv == ls@.map_values(|x: String| x@),
            i <= lv.len(),
            out@.map_values(|p: (String, String)| (p.0@, p.1@)) == env_pairs(lv.take(i as int)),
        decreases lv.len() - i,
    {
        assert(lv.take(i + 1).drop_last() =~= lv.take(i as int));
        assert(lv[i as int] == ls@[i as int]@);
        match env_pair_exec(ls[i].as_str()) {
            Some(p) => {
                let ghost before = out@;
                let ghost pv = (p.0@, p.1@);
                out.push(p);
                assert(out@.map_values(|p: (String, String)| (p.0@, p.1@)) =~= before.map_values(
                    |p: (String, String)| (p.0@, p.1@),
                ).push(pv));
            },
            None => {},
        }
        i = i + 1;
    }
    assert(lv.take(lv.len() as int) =~= lv);
    out
}

} // verus!
