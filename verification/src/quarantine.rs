//! Quarantine: a hold-then-delete stage. Entries keep a manifest with their
//! origin; they expire once older than the TTL (a TTL of 0 keeps them).

use vstd::prelude::*;
use crate::text::{lex_le, lex_le_exec, chars_of, trim, trim_bounds, string_of, lemma_lex_total, lemma_lex_trans};
use crate::paths::{file_name_spec, file_name, join_path, join_spec, tilde_expanded, home_or_dot, expand_tilde};
use crate::naming::{candidate, stamped, unique_name, stamped_name, now_unix_nanos};
use crate::protect::views;
use crate::policy::GuardPolicy;

verus! {

/// File name of the manifest kept inside each entry.
pub fn manifest_name() -> (s: &'static str)
    ensures
        s@ == ".quarantine.json"@,
{
    ".quarantine.json"
}

/// What a quarantine entry records about itself.
#[derive(Debug, Clone)]
pub struct QuarantineManifest {
    pub name: String,
    pub origin: String,
    pub moved_at_unix: u64,
    pub bytes: u64,
    pub files: u64,
}

/// One listed entry; entries placed by hand have no manifest, so no origin
/// or age.
#[derive(Debug, Clone)]
pub struct QuarantineEntry {
    pub name: String,
    pub origin: String,
    pub moved_at_unix: Option<u64>,
    pub age_days: Option<u64>,
    pub bytes: u64,
    pub expired: bool,
}

/// The listing of a quarantine root.
#[derive(Debug, Clone)]
pub struct QuarantineList {
    pub root: String,
    pub ttl_days: u64,
    pub entries: Vec<QuarantineEntry>,
    pub total_bytes: u64,
    pub expired_bytes: u64,
}

/// What the filesystem shows of one directory under the quarantine root:
/// its name, its size, and its manifest if one could be read.
#[derive(Debug, Clone)]
pub struct EntryScan {
    pub name: String,
    pub bytes: u64,
    pub manifest: Option<QuarantineManifest>,
}

pub open spec fn age_days_at(now: u64, moved_at: u64) -> u64 {
    (if now >= moved_at {
        now - moved_at
    } else {
        0
    }) as u64 / 86400
}

pub open spec fn expired_at(ttl_days: u64, age_days: u64) -> bool {
    ttl_days > 0 && age_days > ttl_days
}

/// Whole days from `moved_at` to `now`, 0 if `now` is earlier.
pub fn entry_age_days(now: u64, moved_at: u64) -> (d: u64)
    ensures
        d == age_days_at(now, moved_at),
{
    now.saturating_sub(moved_at) / 86400
}

/// An entry expires once it is older than the TTL; a TTL of 0 disables expiry.
pub fn is_expired(ttl_days: u64, age_days: u64) -> (b: bool)
    ensures
        b == expired_at(ttl_days, age_days),
{
    ttl_days > 0 && age_days > ttl_days
}

/// The listed form of an entry, as plain values.
pub type EntryView = (Seq<char>, Seq<char>, Option<u64>, Option<u64>, u64, bool);

pub open spec fn entry_view(e: QuarantineEntry) -> EntryView {
    (e.name@, e.origin@, e.moved_at_unix, e.age_days, e.bytes, e.expired)
}

/// How a scanned entry is listed at time `now` with TTL `ttl_days`.
pub open spec fn scan_view(s: EntryScan, now: u64, ttl_days: u64) -> EntryView {
    match s.manifest {
        Some(m) => {
            let age = age_days_at(now, m.moved_at_unix);
            (s.name@, m.origin@, Some(m.moved_at_unix), Some(age), s.bytes, expired_at(ttl_days, age))
        },
        None => (s.name@, "unknown"@, None, None, s.bytes, false),
    }
}

/// Lists one scanned entry.
pub fn list_entry(scan: EntryScan, now: u64, ttl_days: u64) -> (e: QuarantineEntry)
    ensures
        entry_view(e) == scan_view(scan, now, ttl_days),
{
    match scan.manifest {
        Some(m) => {
            let age = entry_age_days(now, m.moved_at_unix);
            QuarantineEntry {
                name: scan.name,
                origin: m.origin,
                moved_at_unix: Some(m.moved_at_unix),
                age_days: Some(age),
                bytes: scan.bytes,
                expired: is_expired(ttl_days, age),
            }
        },
        None => QuarantineEntry {
            name: scan.name,
            origin: "unknown".to_owned(),
            moved_at_unix: None,
            age_days: None,
            bytes: scan.bytes,
            expired: false,
        },
    }
}

pub open spec fn sum_bytes(s: Seq<EntryView>) -> nat
    decreases s.len(),
{
    if s.len() == 0 {
        0
    } else {
        sum_bytes(s.drop_last()) + s.last().4 as nat
    }
}

pub open spec fn sum_expired_bytes(s: Seq<EntryView>) -> nat
    decreases s.len(),
{
    if s.len() == 0 {
        0
    } else {
        sum_expired_bytes(s.drop_last()) + if s.last().5 {
            s.last().4 as nat
        } else {
            0nat
        }
    }
}

pub proof fn lemma_expired_within_total(s: Seq<EntryView>)
    ensures
        sum_expired_bytes(s) <= sum_bytes(s),
    decreases s.len(),
{
    if s.len() > 0 {
        lemma_expired_within_total(s.drop_last());
    }
}

pub open spec fn scan_views(scans: Seq<EntryScan>, now: u64, ttl_days: u64) -> Seq<EntryView> {
    scans.map_values(|s: EntryScan| scan_view(s, now, ttl_days))
}

pub open spec fn entry_views(es: Seq<QuarantineEntry>) -> Seq<EntryView> {
    es.map_values(|e: QuarantineEntry| entry_view(e))
}

pub open spec fn sorted_by_name(es: Seq<QuarantineEntry>) -> bool {
    forall|i: int, j: int| 0 <= i < j < es.len() ==> lex_le(#[trigger] es[i].name@, #[trigger] es[j].name@)
}

proof fn lemma_multiset_insert_at(s: Seq<EntryView>, j: int, x: EntryView)
    requires
        0 <= j <= s.len(),
    ensures
        s.insert(j, x).to_multiset() =~= s.to_multiset().insert(x),
{
    broadcast use vstd::seq_lib::group_to_multiset_ensures;

    let t = s.insert(j, x);
    assert(t.remove(j) =~= s);
    assert(t.to_multiset().remove(t[j]) =~= s.to_multiset());
    assert(t.contains(x)) by {
        assert(t[j] == x);
    }
    assert(t.to_multiset().count(x) > 0);
}

/// Where an entry named like `x` goes among the sorted `s`: after every
/// entry whose name sorts at or before its own.
pub open spec fn insert_at(s: Seq<EntryView>, x: EntryView) -> int
    decreases s.len(),
{
    if s.len() == 0 {
        0
    } else if lex_le(s[0].0, x.0) {
        1 + insert_at(s.drop_first(), x)
    } else {
        0
    }
}

/// The listing order: the entries sorted by name, each inserted, from the
/// last to the first, after the names that sort at or before its own.
pub open spec fn sort_views(s: Seq<EntryView>) -> Seq<EntryView>
    decreases s.len(),
{
    if s.len() == 0 {
        s
    } else {
        let r = sort_views(s.drop_first());
        r.insert(insert_at(r, s[0]), s[0])
    }
}

proof fn lemma_insert_at_range(s: Seq<EntryView>, x: EntryView)
    ensures
        0 <= insert_at(s, x) <= s.len(),
    decreases s.len(),
{
    if s.len() > 0 {
        lemma_insert_at_range(s.drop_first(), x);
    }
}

/// The first position whose name does not sort at or before `x`'s is where
/// `x` is inserted.
proof fn lemma_insert_at_first_after(s: Seq<EntryView>, x: EntryView, j: int)
    requires
        0 <= j <= s.len(),
        forall|k: int| 0 <= k < j ==> lex_le(#[trigger] s[k].0, x.0),
        j == s.len() || !lex_le(s[j].0, x.0),
    ensures
        insert_at(s, x) == j,
    decreases s.len(),
{
    if j > 0 {
        let t = s.drop_first();
        assert forall|k: int| 0 <= k < j - 1 implies lex_le(#[trigger] t[k].0, x.0) by {
            assert(t[k] == s[k + 1]);
        }
        if j < s.len() {
            assert(t[j - 1] == s[j]);
        }
        assert(lex_le(s[0].0, x.0));
        lemma_insert_at_first_after(t, x, j - 1);
    }
}

/// Where an entry is inserted depends only on the names.
proof fn lemma_insert_at_names_only(s1: Seq<EntryView>, s2: Seq<EntryView>, x1: EntryView, x2: EntryView)
    requires
        s1.len() == s2.len(),
        forall|i: int| 0 <= i < s1.len() ==> (#[trigger] s1[i]).0 == s2[i].0,
        x1.0 == x2.0,
    ensures
        insert_at(s1, x1) == insert_at(s2, x2),
    decreases s1.len(),
{
    if s1.len() > 0 {
        let t1 = s1.drop_first();
        let t2 = s2.drop_first();
        assert forall|i: int| 0 <= i < t1.len() implies (#[trigger] t1[i]).0 == t2[i].0 by {
            assert(t1[i] == s1[i + 1]);
            assert(t2[i] == s2[i + 1]);
        }
        assert(s1[0].0 == s2[0].0);
        lemma_insert_at_names_only(t1, t2, x1, x2);
    }
}

fn name_le(a: &String, b: &String) -> (r: bool)
    ensures
        r == lex_le(a@, b@),
{
    let x = chars_of(a.as_str());
    let y = chars_of(b.as_str());
    lex_le_exec(&x, &y)
}

/// Sorts entries by name (insertion sort), keeping every entry.
fn sort_entries(v: Vec<QuarantineEntry>) -> (r: Vec<QuarantineEntry>)
    ensures
        sorted_by_name(r@),
        entry_views(r@).to_multiset() == entry_views(v@).to_multiset(),
        entry_views(r@) == sort_views(entry_views(v@)),
{
    broadcast use vstd::seq_lib::group_to_multiset_ensures;

    let ghost w = entry_views(v@);
    let mut rest = v;
    let mut sorted: Vec<QuarantineEntry> = Vec::new();
    assert(entry_views(sorted@) =~= Seq::<EntryView>::empty());
    assert(w.skip(w.len() as int) =~= Seq::<EntryView>::empty());
    assert(rest@ =~= v@.take(rest.len() as int));
    while rest.len() > 0
        invariant
            w == entry_views(v@),
            rest.len() <= v@.len(),
            rest@ == v@.take(rest.len() as int),
            entry_views(sorted@) == sort_views(w.skip(rest.len() as int)),
            sorted_by_name(sorted@),
            entry_views(sorted@).to_multiset().add(entry_views(rest@).to_multiset())
                == entry_views(v@).to_multiset(),
        decreases rest.len(),
    {
        let ghost r0 = rest@;
        let ghost m = rest.len() as int;
        let e = rest.pop().unwrap();
        assert(r0 =~= rest@.push(e));
        assert(rest@ =~= v@.take(m - 1));
        assert(e == v@[m - 1]);
        assert(w.skip(m - 1).drop_first() =~= w.skip(m));
        assert(w.skip(m - 1)[0] == entry_view(e));
        assert(entry_views(r0) =~= entry_views(rest@).push(entry_view(e)));
        let mut j: usize = 0;
        while j < sorted.len() && name_le(&sorted[j].name, &e.name)
            invariant
                0 <= j <= sorted.len(),
                sorted_by_name(sorted@),
                forall|k: int| 0 <= k < j ==> lex_le(#[trigger] sorted@[k].name@, e.name@),
            decreases sorted.len() - j,
        {
            j = j + 1;
        }
        proof {
            if j < sorted.len() {
                // e sorts before sorted[j], hence before all that follow it.
                lemma_lex_total(sorted@[j as int].name@, e.name@);
            }
            assert forall|k: int| j <= k < sorted.len() implies lex_le(e.name@, #[trigger] sorted@[k].name@) by {
                if j < k {
                    lemma_lex_trans(e.name@, sorted@[j as int].name@, sorted@[k].name@);
                }
            }
        }
        proof {
            let sv0 = entry_views(sorted@);
            assert forall|k: int| 0 <= k < j implies lex_le(#[trigger] sv0[k].0, entry_view(e).0) by {
                assert(sv0[k] == entry_view(sorted@[k]));
            }
            if j < sorted.len() {
                assert(sv0[j as int] == entry_view(sorted@[j as int]));
            }
            lemma_insert_at_first_after(sv0, entry_view(e), j as int);
        }
        let ghost s0 = sorted@;
        sorted.insert(j, e);
        proof {
            assert(sorted@ =~= s0.insert(j as int, e));
            assert forall|a: int, b: int| 0 <= a < b < sorted@.len() implies lex_le(
                #[trigger] sorted@[a].name@,
                #[trigger] sorted@[b].name@,
            ) by {
                if b < j {
                } else if a < j && b == j {
                } else if a < j {
                    assert(sorted@[b] == s0[b - 1]);
                } else if a == j {
                    assert(sorted@[b] == s0[b - 1]);
                } else {
                    assert(sorted@[a] == s0[a - 1]);
                    assert(sorted@[b] == s0[b - 1]);
                }
            }
            assert(entry_views(sorted@) =~= entry_views(s0).insert(j as int, entry_view(e)));
            lemma_multiset_insert_at(entry_views(s0), j as int, entry_view(e));
            vstd::seq_lib::to_multiset_build(entry_views(rest@), entry_view(e));
            assert(entry_views(r0) == entry_views(rest@).push(entry_view(e)));
            assert(entry_views(r0).to_multiset() =~= entry_views(rest@).to_multiset().insert(
                entry_view(e),
            ));
            assert(entry_views(sorted@).to_multiset().add(entry_views(rest@).to_multiset())
                =~= entry_views(s0).to_multiset().add(entry_views(r0).to_multiset()));
        }
    }
    assert(entry_views(rest@) =~= Seq::<EntryView>::empty());
    assert(w.skip(0) =~= w);
    assert(entry_views(sorted@).to_multiset().add(entry_views(rest@).to_multiset())
        =~= entry_views(sorted@).to_multiset());
    sorted
}

/// Lists a quarantine root from the scanned entries: each entry's origin
/// and age come from its manifest ("unknown" without one), an entry is
/// expired when older than the TTL, the entries are sorted by name, and the
/// totals count all bytes and the bytes of expired entries.
pub fn build_quarantine_list(root: String, ttl_days: u64, scans: Vec<EntryScan>, now: u64) -> (l:
    QuarantineList)
    requires
        sum_bytes(scan_views(scans@, now, ttl_days)) <= u64::MAX,
    ensures
        l.root@ == root@,
        l.ttl_days == ttl_days,
        sorted_by_name(l.entries@),
        l.entries@.len() == scans@.len(),
        entry_views(l.entries@) == sort_views(scan_views(scans@, now, ttl_days)),
        entry_views(l.entries@).to_multiset() == scan_views(scans@, now, ttl_days).to_multiset(),
        l.total_bytes == sum_bytes(scan_views(scans@, now, ttl_days)),
        l.expired_bytes == sum_expired_bytes(scan_views(scans@, now, ttl_days)),
        l.total_bytes == sum_bytes(entry_views(l.entries@)),
        l.expired_bytes == sum_expired_bytes(entry_views(l.entries@)),
{
    let ghost sv = scan_views(scans@, now, ttl_days);
    let n = scans.len();
    let mut rest = scans;
    let mut listed: Vec<QuarantineEntry> = Vec::new();
    let mut total: u64 = 0;
    let mut expired: u64 = 0;
    assert(sv.subrange(0, n as int) =~= sv);
    assert(sv.subrange(0, n as int) =~= scan_views(rest@, now, ttl_days));
    // Entries are taken from the back, so `listed` holds them in reverse.
    while rest.len() > 0
        invariant
            rest.len() <= n,
            sv.len() == n,
            sv == scan_views(scans@, now, ttl_days),
            sum_bytes(sv) <= u64::MAX,
            sv.subrange(0, rest.len() as int) == scan_views(rest@, now, ttl_days),
            listed@.len() == n - rest.len(),
            forall|k: int| 0 <= k < listed@.len() ==> entry_view(#[trigger] listed@[k]) == sv[n - 1 - k],
            total + sum_bytes(sv.subrange(0, rest.len() as int)) == sum_bytes(sv),
            expired + sum_expired_bytes(sv.subrange(0, rest.len() as int)) == sum_expired_bytes(sv),
        decreases rest.len(),
    {
        let ghost r0 = rest@;
        let ghost m = rest.len() as int;
        let s = rest.pop().unwrap();
        assert(r0 =~= rest@.push(s));
        assert(scan_views(rest@, now, ttl_days) =~= sv.subrange(0, m - 1));
        assert(sv.subrange(0, m).drop_last() =~= sv.subrange(0, m - 1));
        assert(sv.subrange(0, m).last() == scan_view(s, now, ttl_days));
        proof {
            lemma_expired_within_total(sv.subrange(0, m - 1));
            lemma_expired_within_total(sv);
            lemma_sum_prefix_le(sv, m - 1);
        }
        let e = list_entry(s, now, ttl_days);
        total = total + e.bytes;
        if e.expired {
            expired = expired + e.bytes;
        }
        listed.push(e);
    }
    assert(sv.subrange(0, 0) =~= Seq::<EntryView>::empty());
    let mut ordered: Vec<QuarantineEntry> = Vec::new();
    while listed.len() > 0
        invariant
            listed@.len() + ordered@.len() == n,
            sv.len() == n,
            forall|a: int| 0 <= a < listed@.len() ==> entry_view(#[trigger] listed@[a]) == sv[n - 1 - a],
            forall|a: int| 0 <= a < ordered@.len() ==> entry_view(#[trigger] ordered@[a]) == sv[a],
        decreases listed.len(),
    {
        let e = listed.pop().unwrap();
        ordered.push(e);
    }
    assert(entry_views(ordered@) =~= sv);
    let ghost before = entry_views(ordered@);
    let entries = sort_entries(ordered);
    proof {
        entry_views(entries@).to_multiset_ensures();
        before.to_multiset_ensures();
        assert(entry_views(entries@).len() == before.len());
        lemma_totals_ignore_order(entry_views(entries@), sv);
    }
    QuarantineList { root, ttl_days, entries, total_bytes: total, expired_bytes: expired }
}

/// Removing one entry takes its bytes off both totals.
proof fn lemma_sums_remove(t: Seq<EntryView>, i: int)
    requires
        0 <= i < t.len(),
    ensures
        sum_bytes(t) == sum_bytes(t.remove(i)) + t[i].4,
        sum_expired_bytes(t) == sum_expired_bytes(t.remove(i)) + if t[i].5 {
            t[i].4 as nat
        } else {
            0nat
        },
    decreases t.len(),
{
    if i == t.len() - 1 {
        assert(t.remove(i) =~= t.drop_last());
    } else {
        let p = t.drop_last();
        lemma_sums_remove(p, i);
        assert(t.remove(i).drop_last() =~= p.remove(i));
        assert(t.remove(i).last() == t.last());
    }
}

/// Both totals depend only on which entries there are, not on their order.
pub proof fn lemma_totals_ignore_order(s: Seq<EntryView>, t: Seq<EntryView>)
    requires
        s.to_multiset() == t.to_multiset(),
    ensures
        sum_bytes(s) == sum_bytes(t),
        sum_expired_bytes(s) == sum_expired_bytes(t),
    decreases s.len(),
{
    broadcast use vstd::seq_lib::group_to_multiset_ensures;

    if s.len() == 0 {
        assert(t.to_multiset().len() == 0);
        assert(t =~= Seq::<EntryView>::empty());
    } else {
        let x = s.last();
        let p = s.drop_last();
        assert(s =~= p.push(x));
        assert(s.to_multiset().count(x) > 0);
        assert(t.contains(x));
        let i = choose|i: int| 0 <= i < t.len() && t[i] == x;
        let u = t.remove(i);
        assert(u.to_multiset() =~= t.to_multiset().remove(x));
        assert(p.to_multiset() =~= s.to_multiset().remove(x));
        lemma_totals_ignore_order(p, u);
        lemma_sums_remove(t, i);
    }
}

proof fn lemma_sum_prefix_le(s: Seq<EntryView>, m: int)
    requires
        0 <= m <= s.len(),
    ensures
        sum_bytes(s.subrange(0, m)) <= sum_bytes(s),
    decreases s.len() - m,
{
    if m < s.len() {
        lemma_sum_prefix_le(s, m + 1);
        assert(s.subrange(0, m + 1).drop_last() =~= s.subrange(0, m));
    } else {
        assert(s.subrange(0, m) =~= s);
    }
}

} // verus!

verus! {

/// Names of the expired entries, in listing order.
pub open spec fn expired_names(es: Seq<QuarantineEntry>) -> Seq<Seq<char>>
    decreases es.len(),
{
    if es.len() == 0 {
        Seq::empty()
    } else {
        let p = expired_names(es.drop_last());
        if es.last().expired {
            p.push(es.last().name@)
        } else {
            p
        }
    }
}

/// The expired entries of a listing, in listing order.
pub open spec fn expired_entries(es: Seq<QuarantineEntry>) -> Seq<QuarantineEntry> {
    es.filter(|e: QuarantineEntry| e.expired)
}

/// The names picked for expiry are exactly the names of the expired
/// entries, in listing order: as many names as expired entries, the `k`-th
/// name being that of the `k`-th expired entry of the listing; and every
/// expired entry's name is among them.
pub proof fn lemma_expired_names_are_the_expired_entries(es: Seq<QuarantineEntry>)
    ensures
        expired_names(es).len() == expired_entries(es).len(),
        forall|k: int|
            0 <= k < expired_entries(es).len() ==> expired_names(es)[k] == (
            #[trigger] expired_entries(es)[k]).name@ && expired_entries(es)[k].expired
                && es.contains(expired_entries(es)[k]),
        forall|i: int|
            0 <= i < es.len() && (#[trigger] es[i]).expired ==> expired_names(es).contains(
                es[i].name@,
            ),
    decreases es.len(),
{
    reveal(Seq::filter);
    let f = expired_entries(es);
    if es.len() > 0 {
        let p = es.drop_last();
        lemma_expired_names_are_the_expired_entries(p);
        let fp = expired_entries(p);
        assert(f == if es.last().expired {
            fp.push(es.last())
        } else {
            fp
        });
        let n = expired_names(es);
        let np = expired_names(p);
        assert forall|k: int| 0 <= k < f.len() implies n[k] == (#[trigger] f[k]).name@
            && f[k].expired && es.contains(f[k]) by {
            if k < fp.len() {
                assert(f[k] == fp[k]);
                assert(n[k] == np[k]);
                let j = choose|j: int| 0 <= j < p.len() && p[j] == fp[k];
                assert(es[j] == p[j]);
            } else {
                assert(f[k] == es[es.len() - 1]);
            }
        }
        assert forall|i: int| 0 <= i < es.len() && (#[trigger] es[i]).expired implies n.contains(
            es[i].name@,
        ) by {
            if i < es.len() - 1 {
                assert(p[i] == es[i]);
                let k = choose|k: int| 0 <= k < np.len() && np[k] == p[i].name@;
                assert(n[k] == np[k]);
            } else {
                assert(n[n.len() - 1] == es[i].name@);
            }
        }
    }
}

/// The entries that expiry removes: none when the TTL is 0, otherwise the
/// expired ones of the listing, in order.
pub fn expire_selection(list: &QuarantineList, ttl_days: u64) -> (names: Vec<String>)
    ensures
        views(names@) == if ttl_days == 0 {
            Seq::<Seq<char>>::empty()
        } else {
            expired_names(list.entries@)
        },
        ttl_days != 0 ==> views(names@) == expired_entries(list.entries@).map_values(
            |e: QuarantineEntry| e.name@,
        ),
{
    let mut names: Vec<String> = Vec::new();
    if ttl_days == 0 {
        assert(views(names@) =~= Seq::<Seq<char>>::empty());
        return names;
    }
    let mut i: usize = 0;
    assert(list.entries@.take(0) =~= Seq::<QuarantineEntry>::empty());
    assert(views(names@) =~= Seq::<Seq<char>>::empty());
    while i < list.entries.len()
        invariant
            0 <= i <= list.entries.len(),
            views(names@) == expired_names(list.entries@.take(i as int)),
        decreases list.entries.len() - i,
    {
        let ghost t = list.entries@.take(i + 1);
        assert(t.drop_last() =~= list.entries@.take(i as int));
        assert(t.last() == list.entries@[i as int]);
        if list.entries[i].expired {
            let ghost n0 = names@;
            names.push(list.entries[i].name.clone());
            assert(views(names@) =~= views(n0).push(list.entries@[i as int].name@));
        }
        i = i + 1;
    }
    assert(list.entries@.take(list.entries.len() as int) =~= list.entries@);
    proof {
        lemma_expired_names_are_the_expired_entries(list.entries@);
        assert(views(names@) =~= expired_entries(list.entries@).map_values(
            |e: QuarantineEntry| e.name@,
        ));
    }
    names
}

/// With a TTL of 0 nothing expires: no scanned entry is listed as expired
/// and the expired total is 0.
pub proof fn lemma_zero_ttl_keeps_everything(scans: Seq<EntryScan>, now: u64)
    ensures
        forall|i: int| 0 <= i < scans.len() ==> !(#[trigger] scan_views(scans, now, 0)[i]).5,
        sum_expired_bytes(scan_views(scans, now, 0)) == 0,
{
    lemma_no_expired_sum(scan_views(scans, now, 0));
}

proof fn lemma_no_expired_sum(s: Seq<EntryView>)
    requires
        forall|i: int| 0 <= i < s.len() ==> !(#[trigger] s[i]).5,
    ensures
        sum_expired_bytes(s) == 0,
    decreases s.len(),
{
    if s.len() > 0 {
        assert forall|i: int| 0 <= i < s.drop_last().len() implies !(#[trigger] s.drop_last()[i]).5 by {
            assert(s.drop_last()[i] == s[i]);
        }
        lemma_no_expired_sum(s.drop_last());
        assert(!s[s.len() - 1].5);
    }
}

/// An entry expired under one TTL is expired under every shorter non-zero
/// TTL; an entry fresh under one TTL is fresh under every longer one.
pub proof fn lemma_expiry_monotone(t1: u64, t2: u64, age: u64)
    requires
        0 < t1 <= t2,
    ensures
        expired_at(t2, age) ==> expired_at(t1, age),
{
}

/// Each scanned entry, listed at the same time under two TTLs
/// `0 < t1 <= t2`, keeps its name, origin, move time, age and size, and is
/// expired under the longer TTL only if it is under the shorter one; over
/// all the entries the totals agree, and the bytes counted as expired under
/// the longer TTL are at most those under the shorter one.
pub proof fn lemma_listing_expiry_monotone(scans: Seq<EntryScan>, now: u64, t1: u64, t2: u64)
    requires
        0 < t1 <= t2,
    ensures
        scan_views(scans, now, t2).len() == scan_views(scans, now, t1).len(),
        forall|i: int|
            0 <= i < scans.len() ==> listed_under_longer_ttl(
                #[trigger] scan_views(scans, now, t1)[i],
                scan_views(scans, now, t2)[i],
            ),
        sum_bytes(scan_views(scans, now, t2)) == sum_bytes(scan_views(scans, now, t1)),
        sum_expired_bytes(scan_views(scans, now, t2)) <= sum_expired_bytes(
            scan_views(scans, now, t1),
        ),
{
    let v1 = scan_views(scans, now, t1);
    let v2 = scan_views(scans, now, t2);
    assert forall|i: int| 0 <= i < scans.len() implies listed_under_longer_ttl(#[trigger] v1[i], v2[i]) by {
        assert(v1[i] == scan_view(scans[i], now, t1));
        assert(v2[i] == scan_view(scans[i], now, t2));
    }
    lemma_pointwise_totals(v1, v2);
}

/// `b` is how the entry listed as `a` is listed under a TTL at least as
/// long: the same name, origin, move time, age and size, and expired only
/// if `a` is.
pub open spec fn listed_under_longer_ttl(a: EntryView, b: EntryView) -> bool {
    &&& b.0 == a.0
    &&& b.1 == a.1
    &&& b.2 == a.2
    &&& b.3 == a.3
    &&& b.4 == a.4
    &&& (b.5 ==> a.5)
}

/// Sorting keeps entries related position by position, as the order
/// depends on the names alone.
proof fn lemma_sort_keeps_pointwise(v1: Seq<EntryView>, v2: Seq<EntryView>)
    requires
        v1.len() == v2.len(),
        forall|i: int| 0 <= i < v1.len() ==> listed_under_longer_ttl(#[trigger] v1[i], v2[i]),
    ensures
        sort_views(v1).len() == v1.len(),
        sort_views(v2).len() == v2.len(),
        forall|i: int|
            0 <= i < v1.len() ==> listed_under_longer_ttl(
                #[trigger] sort_views(v1)[i],
                sort_views(v2)[i],
            ),
    decreases v1.len(),
{
    if v1.len() > 0 {
        let t1 = v1.drop_first();
        let t2 = v2.drop_first();
        assert forall|i: int| 0 <= i < t1.len() implies listed_under_longer_ttl(#[trigger] t1[i], t2[i]) by {
            assert(t1[i] == v1[i + 1]);
            assert(t2[i] == v2[i + 1]);
        }
        lemma_sort_keeps_pointwise(t1, t2);
        let r1 = sort_views(t1);
        let r2 = sort_views(t2);
        assert forall|i: int| 0 <= i < r1.len() implies (#[trigger] r1[i]).0 == r2[i].0 by {
            assert(listed_under_longer_ttl(r1[i], r2[i]));
        }
        assert(listed_under_longer_ttl(v1[0], v2[0]));
        lemma_insert_at_names_only(r1, r2, v1[0], v2[0]);
        lemma_insert_at_range(r1, v1[0]);
        let j = insert_at(r1, v1[0]);
        let s1 = r1.insert(j, v1[0]);
        let s2 = r2.insert(j, v2[0]);
        assert(sort_views(v1) == s1);
        assert(sort_views(v2) == s2);
        assert forall|i: int| 0 <= i < s1.len() implies listed_under_longer_ttl(#[trigger] s1[i], s2[i]) by {
            if i < j {
                assert(listed_under_longer_ttl(r1[i], r2[i]));
            } else if i > j {
                assert(listed_under_longer_ttl(r1[i - 1], r2[i - 1]));
            }
        }
    }
}

/// Totals of two listings related position by position: the same bytes in
/// all, and no more bytes expired under the longer TTL.
proof fn lemma_pointwise_totals(a: Seq<EntryView>, b: Seq<EntryView>)
    requires
        a.len() == b.len(),
        forall|i: int| 0 <= i < a.len() ==> listed_under_longer_ttl(#[trigger] a[i], b[i]),
    ensures
        sum_bytes(b) == sum_bytes(a),
        sum_expired_bytes(b) <= sum_expired_bytes(a),
    decreases a.len(),
{
    if a.len() > 0 {
        let pa = a.drop_last();
        let pb = b.drop_last();
        assert forall|i: int| 0 <= i < pa.len() implies listed_under_longer_ttl(#[trigger] pa[i], pb[i]) by {
            assert(pa[i] == a[i]);
            assert(pb[i] == b[i]);
        }
        lemma_pointwise_totals(pa, pb);
        assert(listed_under_longer_ttl(a[a.len() - 1], b[b.len() - 1]));
    }
}

/// Two sorted listings of the same scanned entries at the same time, under
/// TTLs `0 < t1 <= t2`: they have the same length, and position by position
/// they list the same entry with the same name, origin, move time, age and
/// size, where an entry expired under `t2` is expired under `t1`. The total
/// bytes agree, and the expired bytes under `t2` are at most those under
/// `t1`.
pub proof fn lemma_sorted_listings_expiry_monotone(scans: Seq<EntryScan>, now: u64, t1: u64, t2: u64)
    requires
        0 < t1 <= t2,
    ensures
        sort_views(scan_views(scans, now, t1)).len() == scans.len(),
        sort_views(scan_views(scans, now, t2)).len() == scans.len(),
        forall|i: int|
            0 <= i < scans.len() ==> listed_under_longer_ttl(
                #[trigger] sort_views(scan_views(scans, now, t1))[i],
                sort_views(scan_views(scans, now, t2))[i],
            ),
        sum_bytes(sort_views(scan_views(scans, now, t2))) == sum_bytes(
            sort_views(scan_views(scans, now, t1)),
        ),
        sum_expired_bytes(sort_views(scan_views(scans, now, t2))) <= sum_expired_bytes(
            sort_views(scan_views(scans, now, t1)),
        ),
{
    let v1 = scan_views(scans, now, t1);
    let v2 = scan_views(scans, now, t2);
    lemma_listing_expiry_monotone(scans, now, t1, t2);
    lemma_sort_keeps_pointwise(v1, v2);
    lemma_pointwise_totals(sort_views(v1), sort_views(v2));
}

/// The quarantine directory that the policy names: its trimmed
/// `quarantine_dir`, or the default location when that is empty.
pub open spec fn quarantine_dir_text(g: GuardPolicy) -> Seq<char> {
    if trim(g.quarantine_dir@).len() == 0 {
        "~/.dracon/quarantine"@
    } else {
        trim(g.quarantine_dir@)
    }
}

/// The quarantine root: the configured directory (or the default one) with
/// `~` expanded.
pub fn quarantine_root(guard: &GuardPolicy) -> (root: String)
    ensures
        exists|h: Option<Seq<char>>|
            (h matches Some(x) ==> x.len() > 0) && root@ == tilde_expanded(
                quarantine_dir_text(*guard),
                home_or_dot(h),
            ),
{
    let d = chars_of(guard.quarantine_dir.as_str());
    let (a, z) = trim_bounds(&d, 0, d.len());
    assert(d@.subrange(0, d@.len() as int) =~= d@);
    if a == z {
        let def = crate::policy::default_quarantine_dir();
        expand_tilde(def.as_str())
    } else {
        let raw = string_of(&d, a, z);
        expand_tilde(raw.as_str())
    }
}

/// The base of an entry's name: the origin's file name, or `entry`.
pub open spec fn entry_base(origin: Seq<char>) -> Seq<char> {
    match file_name_spec(origin) {
        Some(n) => n,
        None => "entry"@,
    }
}

/// A fresh entry directory under `root` for `origin`:
/// `<root>/<base>.<nanos>`, or, where that name is taken, the first of
/// its `-1`, `-2`, ... variants that is not among the names `taken` (the
/// entries already under the root).
pub fn entry_dir_for(root: &str, origin: &str, taken: &Vec<String>) -> (dir: String)
    ensures
        exists|t: nat, k: nat|
            #![trigger candidate(stamped(entry_base(origin@), "."@, t), k)]
            dir@ == join_spec(root@, candidate(stamped(entry_base(origin@), "."@, t), k))
                && !views(taken@).contains(candidate(stamped(entry_base(origin@), "."@, t), k))
                && forall|j: nat|
                j < k ==> views(taken@).contains(
                    #[trigger] candidate(stamped(entry_base(origin@), "."@, t), j),
                ),
{
    let base: String = match file_name(origin) {
        Some(n) => n,
        None => "entry".to_owned(),
    };
    let t = now_unix_nanos();
    let stamped_base = stamped_name(base.as_str(), ".", t);
    let name = unique_name(stamped_base.as_str(), taken);
    let dir = join_path(root, name.as_str());
    proof {
        assert(base@ == entry_base(origin@));
        let k = choose|k: nat|
            name@ == candidate(stamped_base@, k) && forall|j: nat| j < k ==> views(taken@).contains(
                #[trigger] candidate(stamped_base@, j),
            );
        assert(dir@ == join_spec(root@, candidate(stamped(entry_base(origin@), "."@, t as nat), k)));
    }
    dir
}

} // verus!
