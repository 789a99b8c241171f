//! Quotas on the number and size of secrets and bundles.

use vstd::prelude::*;
use vstd::string::StringExecFns;
use crate::error::VaultError;
use crate::fmt::{blen, str_len};
use crate::strmap::{StrMap, has_key, key_index, keys_of, unique_keys};
use crate::text::{decimal, has_substr, join, join_strings, lemma_join_has_part, lemma_substr_concat, owned, push_str, sorted_order, usize_to_string};

verus! {

/// Limits; `None` means unlimited.
pub struct QuotaPolicy {
    pub max_secrets: Option<usize>,
    pub max_bundles: Option<usize>,
    pub max_secret_size_bytes: Option<usize>,
    pub max_total_size_bytes: Option<usize>,
}

impl QuotaPolicy {
    /// The default limits: 500 secrets, 50 bundles, 4096 bytes per secret and
    /// 1 MiB in all.
    pub fn default() -> (r: QuotaPolicy)
        ensures
            r.max_secrets == Some(500usize),
            r.max_bundles == Some(50usize),
            r.max_secret_size_bytes == Some(4096usize),
            r.max_total_size_bytes == Some(1048576usize),
    {
        QuotaPolicy {
            max_secrets: Some(500),
            max_bundles: Some(50),
            max_secret_size_bytes: Some(4096),
            max_total_size_bytes: Some(1_048_576),
        }
    }
}

/// What is in use.
pub struct QuotaUsage {
    pub secret_count: usize,
    pub bundle_count: usize,
    pub total_size_bytes: usize,
    pub per_bundle: StrMap<usize>,
}

/// One exceeded limit.
pub struct QuotaViolation {
    pub field: String,
    pub current: usize,
    pub limit: usize,
}

impl QuotaViolation {
    /// The violation described in words.
    pub fn message(&self) -> (r: String)
        ensures
            r@ == "Quota exceeded for '"@ + self.field@ + "': current="@ + decimal(self.current as nat)
                + ", limit="@ + decimal(self.limit as nat),
    {
        let mut s = String::from_str("Quota exceeded for '");
        push_str(&mut s, self.field.as_str());
        push_str(&mut s, "': current=");
        push_str(&mut s, usize_to_string(self.current).as_str());
        push_str(&mut s, ", limit=");
        push_str(&mut s, usize_to_string(self.limit).as_str());
        s
    }
}

/// The violation entry for `name` when `current` reaches the limit.
pub open spec fn violation(name: Seq<char>, current: usize, limit: Option<usize>) -> Seq<Seq<char>> {
    match limit {
        Some(max) => if current >= max {
            seq![name + ": "@ + decimal(current as nat) + "/"@ + decimal(max as nat)]
        } else {
            Seq::empty()
        },
        None => Seq::empty(),
    }
}

/// All violated limits, in the order checked.
pub open spec fn violations(policy: QuotaPolicy, usage: QuotaUsage) -> Seq<Seq<char>> {
    violation("max_secrets"@, usage.secret_count, policy.max_secrets)
        + violation("max_bundles"@, usage.bundle_count, policy.max_bundles)
        + violation("max_total_size_bytes"@, usage.total_size_bytes, policy.max_total_size_bytes)
}

fn check_one(violations: &mut Vec<String>, name: &str, current: usize, limit: Option<usize>)
    ensures
        final(violations)@.map_values(|v: String| v@) == old(violations)@.map_values(|v: String| v@)
            + violation(name@, current, limit),
{
    let ghost before = violations@.map_values(|v: String| v@);
    if let Some(max) = limit {
        if current >= max {
            let mut s = owned(name);
            push_str(&mut s, ": ");
            push_str(&mut s, usize_to_string(current).as_str());
            push_str(&mut s, "/");
            push_str(&mut s, usize_to_string(max).as_str());
            let ghost sv = s@;
            let ghost old_v = violations@;
            violations.push(s);
            assert(violations@.map_values(|v: String| v@) =~= old_v.map_values(|v: String| v@).push(sv));
        }
    }
    assert(violations@.map_values(|v: String| v@) =~= before + violation(name@, current, limit));
}

/// Checks usage against the limits: a count reaching its limit is a violation.
/// The per-secret size limit is not checked here.
pub fn check_quota(policy: &QuotaPolicy, usage: &QuotaUsage) -> (r: Result<(), VaultError>)
    ensures
        r is Ok <==> violations(*policy, *usage).len() == 0,
        r matches Err(e) ==> e is Generic && e.msg() == "Quota violation(s): "@ + join(violations(*policy, *usage), "; "@),
        r is Ok <==> (policy.max_secrets matches Some(m) ==> usage.secret_count < m) && (policy.max_bundles matches Some(
            m) ==> usage.bundle_count < m) && (policy.max_total_size_bytes matches Some(m) ==> usage.total_size_bytes < m),
        policy.max_secrets matches Some(m) ==> usage.secret_count >= m ==> (r matches Err(e) && has_substr(e.msg(),
            "max_secrets: "@ + decimal(usage.secret_count as nat) + "/"@ + decimal(m as nat))),
        policy.max_bundles matches Some(m) ==> usage.bundle_count >= m ==> (r matches Err(e) && has_substr(e.msg(),
            "max_bundles: "@ + decimal(usage.bundle_count as nat) + "/"@ + decimal(m as nat))),
        policy.max_total_size_bytes matches Some(m) ==> usage.total_size_bytes >= m ==> (r matches Err(e) && has_substr(
            e.msg(),
            "max_total_size_bytes: "@ + decimal(usage.total_size_bytes as nat) + "/"@ + decimal(m as nat),
        )),
{
    proof { law_each_reached_limit_is_reported(*policy, *usage); }
    let mut v: Vec<String> = Vec::new();
    assert(v@.map_values(|x: String| x@) =~= Seq::<Seq<char>>::empty());
    check_one(&mut v, "max_secrets", usage.secret_count, policy.max_secrets);
    check_one(&mut v, "max_bundles", usage.bundle_count, policy.max_bundles);
    check_one(&mut v, "max_total_size_bytes", usage.total_size_bytes, policy.max_total_size_bytes);
    assert(v@.map_values(|x: String| x@) =~= violations(*policy, *usage));
    if v.len() == 0 {
        Ok(())
    } else {
        let j = join_strings(&v, "; ");
        Err(VaultError::Generic(String::from_str("Quota violation(s): ").concat(j.as_str())))
    }
}

/// Checks one secret's size against the per-secret limit (a size above it fails).
pub fn check_secret_size(policy: &QuotaPolicy, size_bytes: usize) -> (r: Result<(), VaultError>)
    ensures
        r is Ok <==> match policy.max_secret_size_bytes {
            Some(max) => size_bytes <= max,
            None => true,
        },
        r matches Err(e) ==> e is Generic && e.msg() == "Secret size "@ + decimal(size_bytes as nat)
            + " bytes exceeds limit of "@ + decimal(policy.max_secret_size_bytes->0 as nat) + " bytes"@,
{
    if let Some(max) = policy.max_secret_size_bytes {
        if size_bytes > max {
            let mut s = String::from_str("Secret size ");
            push_str(&mut s, usize_to_string(size_bytes).as_str());
            push_str(&mut s, " bytes exceeds limit of ");
            push_str(&mut s, usize_to_string(max).as_str());
            push_str(&mut s, " bytes");
            return Err(VaultError::Generic(s));
        }
    }
    Ok(())
}

/// The number of secrets over all bundles.
pub open spec fn count_sum(b: Seq<(Seq<char>, Seq<Seq<char>>)>) -> nat
    decreases b.len(),
{
    if b.len() == 0 {
        0
    } else {
        count_sum(b.drop_last()) + b.last().1.len()
    }
}

/// The total byte length of a list of secrets.
pub open spec fn size_sum(v: Seq<Seq<char>>) -> nat
    decreases v.len(),
{
    if v.len() == 0 {
        0
    } else {
        size_sum(v.drop_last()) + (str_len(v.last()) as nat)
    }
}

/// The total byte length of all secrets over all bundles.
pub open spec fn total_size(b: Seq<(Seq<char>, Seq<Seq<char>>)>) -> nat
    decreases b.len(),
{
    if b.len() == 0 {
        0
    } else {
        total_size(b.drop_last()) + size_sum(b.last().1)
    }
}

/// Usage figures of bundles given by name with their secrets' values: the
/// number of bundles, of secrets, their total size in bytes, and the number
/// of secrets per bundle.
pub fn build_usage_from_bundles(bundles: &StrMap<Vec<String>>) -> (r: QuotaUsage)
    requires
        count_sum(bundles@) <= usize::MAX,
        total_size(bundles@) <= usize::MAX,
    ensures
        r.bundle_count == bundles@.len(),
        r.secret_count == count_sum(bundles@),
        r.total_size_bytes == total_size(bundles@),
        r.per_bundle@ == bundles@.map_values(|p: (Seq<char>, Seq<Seq<char>>)| (p.0, p.1.len() as usize)),
{
    let ghost b = bundles@;
    proof { use_type_invariant(bundles); }
    let bundle_count = bundles.len();
    let mut secret_count: usize = 0;
    let mut total: usize = 0;
    let mut per_bundle: StrMap<usize> = StrMap::new();
    let mut i: usize = 0;
    assert(b.take(0) =~= Seq::<(Seq<char>, Seq<Seq<char>>)>::empty());
    while i < bundle_count
        invariant
            b == bundles@,
            unique_keys(b),
            bundle_count == b.len(),
            count_sum(b) <= usize::MAX,
            total_size(b) <= usize::MAX,
            i <= bundle_count,
            secret_count == count_sum(b.take(i as int)),
            total == total_size(b.take(i as int)),
            per_bundle@ == b.take(i as int).map_values(|p: (Seq<char>, Seq<Seq<char>>)| (p.0, p.1.len() as usize)),
        decreases bundle_count - i,
    {
        proof { lemma_sums_prefix(b, i as int); }
        assert(b.take(i + 1).drop_last() =~= b.take(i as int));
        let name = bundles.key_at(i);
        let secrets = bundles.value_at(i);
        let count = secrets.len();
        assert(b[i as int].1.len() == count);
        secret_count = secret_count + count;
        let ghost sv = b[i as int].1;
        let mut j: usize = 0;
        let ghost base = total;
        assert(sv.take(0) =~= Seq::<Seq<char>>::empty());
        while j < count
            invariant
                count == sv.len(),
                sv == secrets.deep_view(),
                j <= count,
                base + size_sum(sv) <= usize::MAX,
                total == base + size_sum(sv.take(j as int)),
            decreases count - j,
        {
            proof { lemma_size_prefix(sv, j as int); }
            assert(sv.take(j + 1).drop_last() =~= sv.take(j as int));
            assert(sv[j as int] == secrets@[j as int]@);
            total = total + secrets[j].as_str().len();
            j = j + 1;
        }
        assert(sv.take(count as int) =~= sv);
        proof {
            use_type_invariant(&per_bundle);
            assert(!has_key(per_bundle@, name@)) by {
                if has_key(per_bundle@, name@) {
                    let q = key_index(per_bundle@, name@);
                    assert(b[q].0 == b[i as int].0);
                }
            }
        }
        let ghost before = per_bundle@;
        per_bundle.insert(name.clone(), count);
        assert(per_bundle@ =~= b.take(i + 1).map_values(|p: (Seq<char>, Seq<Seq<char>>)| (p.0, p.1.len() as usize)));
        i = i + 1;
    }
    assert(b.take(bundle_count as int) =~= b);
    QuotaUsage { secret_count, bundle_count, total_size_bytes: total, per_bundle }
}

proof fn lemma_sums_prefix(b: Seq<(Seq<char>, Seq<Seq<char>>)>, i: int)
    requires
        0 <= i < b.len(),
    ensures
        count_sum(b.take(i + 1)) <= count_sum(b),
        total_size(b.take(i + 1)) <= total_size(b),
        count_sum(b.take(i + 1)) == count_sum(b.take(i)) + b[i].1.len(),
        total_size(b.take(i + 1)) == total_size(b.take(i)) + size_sum(b[i].1),
    decreases b.len() - i,
{
    assert(b.take(i + 1).drop_last() =~= b.take(i));
    if i + 1 < b.len() {
        lemma_sums_prefix(b, i + 1);
    } else {
        assert(b.take(i + 1) =~= b);
    }
}

proof fn lemma_size_prefix(v: Seq<Seq<char>>, j: int)
    requires
        0 <= j < v.len(),
    ensures
        size_sum(v.take(j + 1)) <= size_sum(v),
        size_sum(v.take(j + 1)) == size_sum(v.take(j)) + str_len(v[j]),
    decreases v.len() - j,
{
    assert(v.take(j + 1).drop_last() =~= v.take(j));
    if j + 1 < v.len() {
        lemma_size_prefix(v, j + 1);
    } else {
        assert(v.take(j + 1) =~= v);
    }
}

/// A limit as shown: its value, or `unlimited`.
pub open spec fn limit_text(l: Option<usize>, unit: Seq<char>) -> Seq<char> {
    match l {
        Some(v) => decimal(v as nat) + unit,
        None => "unlimited"@,
    }
}

fn limit_string(l: Option<usize>, unit: &str) -> (r: String)
    ensures
        r@ == limit_text(l, unit@),
{
    match l {
        Some(v) => {
            let mut s = usize_to_string(v);
            push_str(&mut s, unit);
            s
        },
        None => String::from_str("unlimited"),
    }
}

/// The quota status report: the counts against their limits, the secrets per
/// bundle in order of bundle name (when there are bundles), and the outcome of
/// the quota check.
pub fn status_lines(usage: &QuotaUsage, policy: &QuotaPolicy) -> (r: Vec<String>)
    ensures
        r@.len() >= 6,
        r@[0]@ == "=== Quota Status ==="@,
        r@[1]@ == "Secrets : "@ + decimal(usage.secret_count as nat) + "/"@ + limit_text(policy.max_secrets, ""@),
        r@[2]@ == "Bundles : "@ + decimal(usage.bundle_count as nat) + "/"@ + limit_text(policy.max_bundles, ""@),
        r@[3]@ == "Total Size: "@ + decimal(usage.total_size_bytes as nat) + " bytes / "@ + limit_text(
            policy.max_total_size_bytes,
            " bytes"@,
        ),
        usage.per_bundle@.len() == 0 ==> r@.len() == 6,
        usage.per_bundle@.len() > 0 ==> r@.len() == 8 + usage.per_bundle@.len() && r@[4]@ == Seq::<char>::empty()
            && r@[5]@ == "Per-bundle secret counts:"@ && exists|order: Seq<usize>| #[trigger] sorted_order(
            keys_of(usage.per_bundle@),
            order,
        ) && forall|i: int| 0 <= i < order.len() ==> (#[trigger] r@[6 + i])@ == "  "@ + usage.per_bundle@[order[i] as int].0
            + ": "@ + decimal(usage.per_bundle@[order[i] as int].1 as nat),
        r@[r@.len() - 2]@ == Seq::<char>::empty(),
        violations(*policy, *usage).len() == 0 ==> r@.last()@ == "[OK] All quotas within limits."@,
        violations(*policy, *usage).len() > 0 ==> r@.last()@ == "[WARN] "@ + "Quota violation(s): "@ + join(
            violations(*policy, *usage),
            "; "@,
        ),
{
    let mut out: Vec<String> = Vec::new();
    out.push(String::from_str("=== Quota Status ==="));
    let mut l1 = String::from_str("Secrets : ");
    push_str(&mut l1, usize_to_string(usage.secret_count).as_str());
    push_str(&mut l1, "/");
    push_str(&mut l1, limit_string(policy.max_secrets, "").as_str());
    out.push(l1);
    let mut l2 = String::from_str("Bundles : ");
    push_str(&mut l2, usize_to_string(usage.bundle_count).as_str());
    push_str(&mut l2, "/");
    push_str(&mut l2, limit_string(policy.max_bundles, "").as_str());
    out.push(l2);
    let mut l3 = String::from_str("Total Size: ");
    push_str(&mut l3, usize_to_string(usage.total_size_bytes).as_str());
    push_str(&mut l3, " bytes / ");
    push_str(&mut l3, limit_string(policy.max_total_size_bytes, " bytes").as_str());
    out.push(l3);
    proof {
        reveal_strlit("");
        assert(""@ =~= Seq::<char>::empty());
    }
    let n = usage.per_bundle.len();
    if n > 0 {
        out.push(String::new());
        out.push(String::from_str("Per-bundle secret counts:"));
        let order = usage.per_bundle.sorted_indices();
        let ghost pb = usage.per_bundle@;
        let mut j: usize = 0;
        while j < order.len()
            invariant
                pb == usage.per_bundle@,
                sorted_order(keys_of(pb), order@),
                n == pb.len(),
                j <= order@.len(),
                out@.len() == 6 + j,
                out@[0]@ == "=== Quota Status ==="@,
                out@[1]@ == "Secrets : "@ + decimal(usage.secret_count as nat) + "/"@ + limit_text(policy.max_secrets, ""@),
                out@[2]@ == "Bundles : "@ + decimal(usage.bundle_count as nat) + "/"@ + limit_text(policy.max_bundles, ""@),
                out@[3]@ == "Total Size: "@ + decimal(usage.total_size_bytes as nat) + " bytes / "@ + limit_text(
                    policy.max_total_size_bytes,
                    " bytes"@,
                ),
                out@[4]@ == Seq::<char>::empty(),
                out@[5]@ == "Per-bundle secret counts:"@,
                forall|i: int| 0 <= i < j ==> (#[trigger] out@[6 + i])@ == "  "@ + pb[order@[i] as int].0 + ": "@
                    + decimal(pb[order@[i] as int].1 as nat),
            decreases order@.len() - j,
        {
            let p = order[j];
            assert((p as int) < keys_of(pb).len());
            let mut l = String::from_str("  ");
            push_str(&mut l, usage.per_bundle.key_at(p).as_str());
            push_str(&mut l, ": ");
            push_str(&mut l, usize_to_string(*usage.per_bundle.value_at(p)).as_str());
            out.push(l);
            j = j + 1;
        }
    }
    out.push(String::new());
    match check_quota(policy, usage) {
        Ok(_) => out.push(String::from_str("[OK] All quotas within limits.")),
        Err(e) => {
            let mut l = String::from_str("[WARN] ");
            push_str(&mut l, e.message().as_str());
            assert(l@ =~= "[WARN] "@ + "Quota violation(s): "@ + join(violations(*policy, *usage), "; "@));
            out.push(l);
        },
    }
    out
}

/// Law: the quota check passes exactly when each limit that is set (the
/// number of secrets, of bundles, and the total size) is above its current
/// value; and for every limit that is reached, the failure message names it
/// with its current value and its limit (`max_secrets: 500/500`).
pub proof fn law_each_reached_limit_is_reported(policy: QuotaPolicy, usage: QuotaUsage)
    ensures
        violations(policy, usage).len() == 0 <==> (policy.max_secrets matches Some(m) ==> usage.secret_count < m)
            && (policy.max_bundles matches Some(m) ==> usage.bundle_count < m) && (policy.max_total_size_bytes matches Some(
            m) ==> usage.total_size_bytes < m),
        policy.max_secrets matches Some(m) ==> usage.secret_count >= m ==> has_substr(
            "Quota violation(s): "@ + join(violations(policy, usage), "; "@),
            "max_secrets: "@ + decimal(usage.secret_count as nat) + "/"@ + decimal(m as nat),
        ),
        policy.max_bundles matches Some(m) ==> usage.bundle_count >= m ==> has_substr(
            "Quota violation(s): "@ + join(violations(policy, usage), "; "@),
            "max_bundles: "@ + decimal(usage.bundle_count as nat) + "/"@ + decimal(m as nat),
        ),
        policy.max_total_size_bytes matches Some(m) ==> usage.total_size_bytes >= m ==> has_substr(
            "Quota violation(s): "@ + join(violations(policy, usage), "; "@),
            "max_total_size_bytes: "@ + decimal(usage.total_size_bytes as nat) + "/"@ + decimal(m as nat),
        ),
{
    let a = violation("max_secrets"@, usage.secret_count, policy.max_secrets);
    let b = violation("max_bundles"@, usage.bundle_count, policy.max_bundles);
    let c = violation("max_total_size_bytes"@, usage.total_size_bytes, policy.max_total_size_bytes);
    let vs = violations(policy, usage);
    assert(vs == a + b + c);
    let head = "Quota violation(s): "@;
    reveal_strlit("max_secrets");
    reveal_strlit("max_secrets: ");
    reveal_strlit("max_bundles");
    reveal_strlit("max_bundles: ");
    reveal_strlit("max_total_size_bytes");
    reveal_strlit("max_total_size_bytes: ");
    reveal_strlit(": ");
    assert("max_secrets"@ + ": "@ =~= "max_secrets: "@);
    assert("max_bundles"@ + ": "@ =~= "max_bundles: "@);
    assert("max_total_size_bytes"@ + ": "@ =~= "max_total_size_bytes: "@);
    if let Some(m) = policy.max_secrets {
        if usage.secret_count >= m {
            let x = "max_secrets: "@ + decimal(usage.secret_count as nat) + "/"@ + decimal(m as nat);
            assert(a =~= seq![x]);
            assert((a + b)[0] == x);
            assert(vs[0] == x);
            lemma_join_has_part(vs, "; "@, x);
            lemma_substr_concat(head, join(vs, "; "@), x);
        }
    }
    if let Some(m) = policy.max_bundles {
        if usage.bundle_count >= m {
            let x = "max_bundles: "@ + decimal(usage.bundle_count as nat) + "/"@ + decimal(m as nat);
            assert(b =~= seq![x]);
            assert((a + b)[a.len() as int] == x);
            assert(vs[a.len() as int] == x);
            lemma_join_has_part(vs, "; "@, x);
            lemma_substr_concat(head, join(vs, "; "@), x);
        }
    }
    if let Some(m) = policy.max_total_size_bytes {
        if usage.total_size_bytes >= m {
            let x = "max_total_size_bytes: "@ + decimal(usage.total_size_bytes as nat) + "/"@ + decimal(m as nat);
            assert(vs[(a.len() + b.len()) as int] == x);
            lemma_join_has_part(vs, "; "@, x);
            lemma_substr_concat(head, join(vs, "; "@), x);
        }
    }
}

} // verus!
