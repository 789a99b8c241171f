//! The text that the listing commands print: keys, aliases, pins, time-to-live
//! entries and snapshots.

use vstd::prelude::*;
use vstd::string::StringExecFns;
use crate::clock::{format_utc, utc_text};
use crate::error::VaultError;
use crate::fmt::{lpad, pad, pad_left, pad_right};
use crate::keyring::KeyEntry;
use crate::pin::PinnedSecret;
use crate::snapshot::{Snapshot, SnapshotDiff};
use crate::strmap::{StrMap, keys_of};
use crate::text::{decimal, i64_to_string, int_text, owned, push_str, repeat, repeat_char, sorted_order, str_eq,
    u64_to_string};
use crate::ttl::{TtlEntry, expired, remaining};

verus! {

/// The views of a list of lines.
pub open spec fn texts(v: Seq<String>) -> Seq<Seq<char>> {
    v.map_values(|s: String| s@)
}

/// An optional text as shown: the text, or `-`.
pub open spec fn or_dash(o: Option<String>) -> Seq<char> {
    match o {
        Some(s) => s@,
        None => "-"@,
    }
}

fn or_dash_exec(o: &Option<String>) -> (r: String)
    ensures
        r@ == or_dash(*o),
{
    match o {
        Some(s) => owned(s.as_str()),
        None => String::from_str("-"),
    }
}

/// A table row of two padded columns and a last one.
pub open spec fn row3(a: Seq<char>, wa: nat, b: Seq<char>, wb: nat, c: Seq<char>) -> Seq<char> {
    pad(a, wa) + " "@ + pad(b, wb) + " "@ + c
}

fn row3_exec(a: &str, wa: usize, b: &str, wb: usize, c: &str) -> (r: String)
    ensures
        r@ == row3(a@, wa as nat, b@, wb as nat, c@),
{
    let mut s = pad_right(a, wa);
    push_str(&mut s, " ");
    push_str(&mut s, pad_right(b, wb).as_str());
    push_str(&mut s, " ");
    push_str(&mut s, c);
    s
}

/// The keyring listing: a note when there are no keys; otherwise a header, a
/// rule of 80 dashes and one row (alias, fingerprint, e-mail or `-`) per key.
pub fn key_list_lines(keys: &[&KeyEntry]) -> (r: Vec<String>)
    ensures
        keys@.len() == 0 ==> texts(r@) == seq!["No keys in keyring."@],
        keys@.len() > 0 ==> texts(r@) == seq![row3("ALIAS"@, 20, "FINGERPRINT"@, 52, "EMAIL"@), repeat_char('-', 80)]
            + keys@.map_values(|k: &KeyEntry| row3(k.alias@, 20, k.fingerprint@, 52, or_dash(k.email))),
{
    let mut out: Vec<String> = Vec::new();
    if keys.len() == 0 {
        out.push(String::from_str("No keys in keyring."));
        assert(texts(out@) =~= seq!["No keys in keyring."@]);
        return out;
    }
    out.push(row3_exec("ALIAS", 20, "FINGERPRINT", 52, "EMAIL"));
    out.push(repeat('-', 80));
    let ghost head = texts(out@);
    let mut i: usize = 0;
    while i < keys.len()
        invariant
            i <= keys@.len(),
            texts(out@) == head + keys@.take(i as int).map_values(|k: &KeyEntry| row3(k.alias@, 20, k.fingerprint@, 52,
                or_dash(k.email))),
        decreases keys@.len() - i,
    {
        let k = keys[i];
        let line = row3_exec(k.alias.as_str(), 20, k.fingerprint.as_str(), 52, or_dash_exec(&k.email).as_str());
        let ghost before = out@;
        out.push(line);
        assert(texts(out@) =~= texts(before).push(line@));
        assert(keys@.take(i + 1).map_values(|k: &KeyEntry| row3(k.alias@, 20, k.fingerprint@, 52, or_dash(k.email)))
            =~= keys@.take(i as int).map_values(|k: &KeyEntry| row3(k.alias@, 20, k.fingerprint@, 52, or_dash(k.email))).push(
            line@,
        ));
        i = i + 1;
    }
    assert(keys@.take(keys@.len() as int) =~= keys@);
    out
}

/// The details of one key: alias and fingerprint, then e-mail and description
/// when present.
pub fn key_show_lines(k: &KeyEntry) -> (r: Vec<String>)
    ensures
        texts(r@) == seq!["Alias:       "@ + k.alias@, "Fingerprint: "@ + k.fingerprint@] + (match k.email {
            Some(e) => seq!["Email:       "@ + e@],
            None => Seq::<Seq<char>>::empty(),
        }) + (match k.description {
            Some(d) => seq!["Description: "@ + d@],
            None => Seq::<Seq<char>>::empty(),
        }),
{
    let mut out: Vec<String> = Vec::new();
    out.push(String::from_str("Alias:       ").concat(k.alias.as_str()));
    out.push(String::from_str("Fingerprint: ").concat(k.fingerprint.as_str()));
    let ghost a = texts(out@);
    match &k.email {
        Some(e) => {
            out.push(String::from_str("Email:       ").concat(e.as_str()));
        },
        None => {},
    }
    let ghost b = texts(out@);
    match &k.description {
        Some(d) => {
            out.push(String::from_str("Description: ").concat(d.as_str()));
        },
        None => {},
    }
    assert(texts(out@) =~= seq!["Alias:       "@ + k.alias@, "Fingerprint: "@ + k.fingerprint@] + (match k.email {
        Some(e) => seq!["Email:       "@ + e@],
        None => Seq::<Seq<char>>::empty(),
    }) + (match k.description {
        Some(d) => seq!["Description: "@ + d@],
        None => Seq::<Seq<char>>::empty(),
    }));
    out
}

/// The alias listing: a note when there are none; otherwise a header, a rule of
/// 48 dashes and one row per alias.
pub fn alias_list_lines(pairs: &[(&String, &String)]) -> (r: Vec<String>)
    ensures
        pairs@.len() == 0 ==> texts(r@) == seq!["No aliases defined."@],
        pairs@.len() > 0 ==> texts(r@) == seq![pad("ALIAS"@, 24) + " "@ + "TARGET"@, repeat_char('-', 48)]
            + pairs@.map_values(|p: (&String, &String)| pad(p.0@, 24) + " "@ + p.1@),
{
    let mut out: Vec<String> = Vec::new();
    if pairs.len() == 0 {
        out.push(String::from_str("No aliases defined."));
        assert(texts(out@) =~= seq!["No aliases defined."@]);
        return out;
    }
    let mut h = pad_right("ALIAS", 24);
    push_str(&mut h, " ");
    push_str(&mut h, "TARGET");
    out.push(h);
    out.push(repeat('-', 48));
    let ghost head = texts(out@);
    let mut i: usize = 0;
    while i < pairs.len()
        invariant
            i <= pairs@.len(),
            texts(out@) == head + pairs@.take(i as int).map_values(|p: (&String, &String)| pad(p.0@, 24) + " "@ + p.1@),
        decreases pairs@.len() - i,
    {
        let (a, t) = pairs[i];
        let mut line = pad_right(a.as_str(), 24);
        push_str(&mut line, " ");
        push_str(&mut line, t.as_str());
        let ghost before = out@;
        out.push(line);
        assert(texts(out@) =~= texts(before).push(line@));
        assert(pairs@.take(i + 1).map_values(|p: (&String, &String)| pad(p.0@, 24) + " "@ + p.1@) =~= pairs@.take(
            i as int,
        ).map_values(|p: (&String, &String)| pad(p.0@, 24) + " "@ + p.1@).push(line@));
        i = i + 1;
    }
    assert(pairs@.take(pairs@.len() as int) =~= pairs@);
    out
}

/// The pin listing: a note when there are none; otherwise a header, a rule of
/// 65 dashes and one row (key, label or `-`, time) per pin.
pub fn pin_list_lines(pins: &[&PinnedSecret]) -> (r: Vec<String>)
    ensures
        pins@.len() == 0 ==> texts(r@) == seq!["No pinned secrets."@],
        pins@.len() > 0 ==> texts(r@) == seq![row3("Key"@, 30, "Label"@, 20, "Pinned At (unix)"@), repeat_char('-', 65)]
            + pins@.map_values(|p: &PinnedSecret| row3(p.key@, 30, or_dash(p.label), 20, decimal(p.pinned_at as nat))),
{
    let mut out: Vec<String> = Vec::new();
    if pins.len() == 0 {
        out.push(String::from_str("No pinned secrets."));
        assert(texts(out@) =~= seq!["No pinned secrets."@]);
        return out;
    }
    out.push(row3_exec("Key", 30, "Label", 20, "Pinned At (unix)"));
    out.push(repeat('-', 65));
    let ghost head = texts(out@);
    let mut i: usize = 0;
    while i < pins.len()
        invariant
            i <= pins@.len(),
            texts(out@) == head + pins@.take(i as int).map_values(|p: &PinnedSecret| row3(p.key@, 30, or_dash(p.label), 20,
                decimal(p.pinned_at as nat))),
        decreases pins@.len() - i,
    {
        let p = pins[i];
        let line = row3_exec(p.key.as_str(), 30, or_dash_exec(&p.label).as_str(), 20, u64_to_string(p.pinned_at).as_str());
        let ghost before = out@;
        out.push(line);
        assert(texts(out@) =~= texts(before).push(line@));
        assert(pins@.take(i + 1).map_values(|p: &PinnedSecret| row3(p.key@, 30, or_dash(p.label), 20, decimal(
            p.pinned_at as nat,
        ))) =~= pins@.take(i as int).map_values(|p: &PinnedSecret| row3(p.key@, 30, or_dash(p.label), 20, decimal(
            p.pinned_at as nat,
        ))).push(line@));
        i = i + 1;
    }
    assert(pins@.take(pins@.len() as int) =~= pins@);
    out
}

/// One row of the time-to-live listing at time `now`.
pub open spec fn ttl_row(e: TtlEntry, now: u64) -> Seq<char> {
    pad(e.key@, 30) + " "@ + lpad(decimal(remaining(e.expires_at, now) as nat), 15) + "  "@ + (if expired(e, now) {
        "EXPIRED"@
    } else {
        "active"@
    })
}

/// The time-to-live listing at time `now`: a note when there are no entries;
/// otherwise a header, a rule of 58 dashes and one row per entry.
pub fn ttl_list_lines(entries: &[TtlEntry], now: u64) -> (r: Vec<String>)
    ensures
        entries@.len() == 0 ==> texts(r@) == seq!["No TTL entries."@],
        entries@.len() > 0 ==> texts(r@) == seq![pad("Key"@, 30) + " "@ + lpad("Remaining (s)"@, 15) + "  "@ + "Status"@,
            repeat_char('-', 58)] + entries@.map_values(|e: TtlEntry| ttl_row(e, now)),
{
    let mut out: Vec<String> = Vec::new();
    if entries.len() == 0 {
        out.push(String::from_str("No TTL entries."));
        assert(texts(out@) =~= seq!["No TTL entries."@]);
        return out;
    }
    let mut h = pad_right("Key", 30);
    push_str(&mut h, " ");
    push_str(&mut h, pad_left("Remaining (s)", 15).as_str());
    push_str(&mut h, "  ");
    push_str(&mut h, "Status");
    out.push(h);
    out.push(repeat('-', 58));
    let ghost head = texts(out@);
    let mut i: usize = 0;
    while i < entries.len()
        invariant
            i <= entries@.len(),
            texts(out@) == head + entries@.take(i as int).map_values(|e: TtlEntry| ttl_row(e, now)),
        decreases entries@.len() - i,
    {
        let e = &entries[i];
        let mut line = pad_right(e.key.as_str(), 30);
        push_str(&mut line, " ");
        push_str(&mut line, pad_left(u64_to_string(e.seconds_remaining_at(now)).as_str(), 15).as_str());
        push_str(&mut line, "  ");
        push_str(&mut line, if e.is_expired_at(now) { "EXPIRED" } else { "active" });
        let ghost before = out@;
        out.push(line);
        assert(texts(out@) =~= texts(before).push(line@));
        assert(entries@.take(i + 1).map_values(|e: TtlEntry| ttl_row(e, now)) =~= entries@.take(i as int).map_values(
            |e: TtlEntry| ttl_row(e, now),
        ).push(line@));
        i = i + 1;
    }
    assert(entries@.take(entries@.len() as int) =~= entries@);
    out
}

/// A time as the snapshot listing shows it: `%Y-%m-%d %H:%M:%S UTC`, or the
/// number of seconds when the time is out of range.
pub open spec fn shown_time(secs: i64) -> Seq<char> {
    match utc_text(secs) {
        Some(t) => t + " UTC"@,
        None => int_text(secs as int),
    }
}

pub fn shown_time_exec(secs: i64) -> (r: String)
    ensures
        r@ == shown_time(secs),
{
    match format_utc(secs) {
        Some(t) => {
            let mut s = t;
            push_str(&mut s, " UTC");
            s
        },
        None => i64_to_string(secs),
    }
}

/// The snapshot listing: a note when there are none; otherwise a header, a rule
/// of 60 dashes and one row (id, time, label or `-`) per snapshot.
pub fn snapshot_list_lines(snaps: &[Snapshot]) -> (r: Vec<String>)
    ensures
        snaps@.len() == 0 ==> texts(r@) == seq!["No snapshots found."@],
        snaps@.len() > 0 ==> texts(r@) == seq![row3("ID"@, 20, "Created At"@, 25, "Label"@), repeat_char('-', 60)]
            + snaps@.map_values(|s: Snapshot| row3(s.id@, 20, shown_time(s.created_at), 25, or_dash(s.label))),
{
    let mut out: Vec<String> = Vec::new();
    if snaps.len() == 0 {
        out.push(String::from_str("No snapshots found."));
        assert(texts(out@) =~= seq!["No snapshots found."@]);
        return out;
    }
    out.push(row3_exec("ID", 20, "Created At", 25, "Label"));
    out.push(repeat('-', 60));
    let ghost head = texts(out@);
    let mut i: usize = 0;
    while i < snaps.len()
        invariant
            i <= snaps@.len(),
            texts(out@) == head + snaps@.take(i as int).map_values(|s: Snapshot| row3(s.id@, 20, shown_time(s.created_at),
                25, or_dash(s.label))),
        decreases snaps@.len() - i,
    {
        let s = &snaps[i];
        let line = row3_exec(s.id.as_str(), 20, shown_time_exec(s.created_at).as_str(), 25, or_dash_exec(&s.label).as_str());
        let ghost before = out@;
        out.push(line);
        assert(texts(out@) =~= texts(before).push(line@));
        assert(snaps@.take(i + 1).map_values(|s: Snapshot| row3(s.id@, 20, shown_time(s.created_at), 25, or_dash(s.label)))
            =~= snaps@.take(i as int).map_values(|s: Snapshot| row3(s.id@, 20, shown_time(s.created_at), 25, or_dash(
            s.label,
        ))).push(line@));
        i = i + 1;
    }
    assert(snaps@.take(snaps@.len() as int) =~= snaps@);
    out
}

/// The first snapshot with id `id`; fails when there is none.
pub fn find_snapshot<'a>(snaps: &'a [Snapshot], id: &str) -> (r: Result<&'a Snapshot, VaultError>)
    ensures
        match r {
            Ok(s) => exists|i: int| 0 <= i < snaps@.len() && snaps@[i] == *s && s.id@ == id@ && forall|j: int|
                0 <= j < i ==> snaps@[j].id@ != id@,
            Err(e) => e is NotFound && e.msg() == "Snapshot '"@ + id@ + "' not found"@ && forall|i: int|
                0 <= i < snaps@.len() ==> snaps@[i].id@ != id@,
        },
{
    let mut i: usize = 0;
    while i < snaps.len()
        invariant
            i <= snaps@.len(),
            forall|j: int| 0 <= j < i ==> snaps@[j].id@ != id@,
        decreases snaps@.len() - i,
    {
        if str_eq(snaps[i].id.as_str(), id) {
            return Ok(&snaps[i]);
        }
        i = i + 1;
    }
    Err(VaultError::NotFound(String::from_str("Snapshot '").concat(id).concat("' not found")))
}

/// The line for one change between snapshots.
pub open spec fn change_line(key: Seq<char>, d: SnapshotDiff) -> Seq<char> {
    match d {
        SnapshotDiff::Added(v) => "+ "@ + key + ": "@ + v@,
        SnapshotDiff::Removed => "- "@ + key + ": <removed>"@,
        SnapshotDiff::Modified(o, n) => "~ "@ + key + ": "@ + o@ + " → "@ + n@,
    }
}

/// The report of the changes from snapshot `id_b` to snapshot `id_a`: a note
/// when there are none; otherwise a header, a rule of 40 dashes and one line per
/// changed key, in order of key.
pub fn snapshot_diff_lines(id_a: &str, id_b: &str, diffs: &StrMap<SnapshotDiff>) -> (r: Vec<String>)
    ensures
        diffs@.len() == 0 ==> texts(r@) == seq!["No differences between snapshots."@],
        diffs@.len() > 0 ==> r@.len() == 2 + diffs@.len() && texts(r@)[0] == "Diff: "@ + id_b@ + " → "@ + id_a@
            && texts(r@)[1] == repeat_char('-', 40) && exists|order: Seq<usize>| #[trigger] sorted_order(keys_of(diffs@),
            order) && forall|i: int| 0 <= i < order.len() ==> #[trigger] texts(r@)[2 + i] == change_line(
            diffs@[order[i] as int].0,
            diffs@[order[i] as int].1,
        ),
{
    let mut out: Vec<String> = Vec::new();
    if diffs.len() == 0 {
        out.push(String::from_str("No differences between snapshots."));
        assert(texts(out@) =~= seq!["No differences between snapshots."@]);
        return out;
    }
    let mut h = String::from_str("Diff: ");
    push_str(&mut h, id_b);
    push_str(&mut h, " → ");
    push_str(&mut h, id_a);
    out.push(h);
    out.push(repeat('-', 40));
    let order = diffs.sorted_indices();
    let ghost d = diffs@;
    let mut j: usize = 0;
    while j < order.len()
        invariant
            d == diffs@,
            sorted_order(keys_of(d), order@),
            j <= order@.len(),
            out@.len() == 2 + j,
            texts(out@)[0] == "Diff: "@ + id_b@ + " → "@ + id_a@,
            texts(out@)[1] == repeat_char('-', 40),
            forall|i: int| 0 <= i < j ==> #[trigger] texts(out@)[2 + i] == change_line(d[order@[i] as int].0,
                d[order@[i] as int].1),
        decreases order@.len() - j,
    {
        let p = order[j];
        assert((p as int) < keys_of(d).len());
        let key = diffs.key_at(p).as_str();
        let line = match diffs.value_at(p) {
            SnapshotDiff::Added(v) => {
                let mut l = String::from_str("+ ");
                push_str(&mut l, key);
                push_str(&mut l, ": ");
                push_str(&mut l, v.as_str());
                l
            },
            SnapshotDiff::Removed => {
                let mut l = String::from_str("- ");
                push_str(&mut l, key);
                push_str(&mut l, ": <removed>");
                l
            },
            SnapshotDiff::Modified(o, n) => {
                let mut l = String::from_str("~ ");
                push_str(&mut l, key);
                push_str(&mut l, ": ");
                push_str(&mut l, o.as_str());
                push_str(&mut l, " → ");
                push_str(&mut l, n.as_str());
                l
            },
        };
        assert(line@ == change_line(d[p as int].0, d[p as int].1));
        let ghost before = out@;
        out.push(line);
        assert(texts(out@) =~= texts(before).push(line@));
        assert(texts(out@)[2 + j as int] == change_line(d[order@[j as int] as int].0, d[order@[j as int] as int].1));
        assert forall|i: int| 0 <= i < j + 1 implies #[trigger] texts(out@)[2 + i] == change_line(d[order@[i] as int].0,
            d[order@[i] as int].1) by {
            if i < j {
                assert(texts(out@)[2 + i] == texts(before)[2 + i]);
            }
        }
        j = j + 1;
    }
    assert(forall|i: int| 0 <= i < order@.len() ==> #[trigger] texts(out@)[2 + i] == change_line(d[order@[i] as int].0,
        d[order@[i] as int].1));
    out
}

} // verus!
