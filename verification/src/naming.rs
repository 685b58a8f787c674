//! Fresh names in a directory: backups and quarantine entries never reuse a
//! name that is already taken.

use vstd::prelude::*;
use crate::text::{dec, push_decimal, push_decimal_u128, push_char, push_str, lemma_dec_injective};
use crate::protect::views;

verus! {

/// The `k`-th name tried for `name`: the name itself, then `name-1`,
/// `name-2`, and so on.
pub open spec fn candidate(name: Seq<char>, k: nat) -> Seq<char> {
    if k == 0 {
        name
    } else {
        name + seq!['-'] + dec(k)
    }
}

proof fn lemma_candidates_distinct(name: Seq<char>, a: nat, b: nat)
    requires
        candidate(name, a) == candidate(name, b),
    ensures
        a == b,
{
    crate::text::lemma_dec_roundtrip(a);
    crate::text::lemma_dec_roundtrip(b);
    if a != 0 && b != 0 {
        let ca = candidate(name, a);
        let cb = candidate(name, b);
        assert(ca.skip(name.len() + 1int) =~= dec(a));
        assert(cb.skip(name.len() + 1int) =~= dec(b));
        lemma_dec_injective(a, b);
    } else if a != 0 || b != 0 {
        assert(candidate(name, a).len() != candidate(name, b).len());
    }
}

/// Among the first `n + 1` names tried, at least one is not among `n` taken
/// names.
proof fn lemma_all_taken_impossible(name: Seq<char>, taken: Seq<Seq<char>>)
    requires
        forall|j: nat| j <= taken.len() ==> taken.contains(#[trigger] candidate(name, j)),
    ensures
        taken.len() + 1 <= taken.len(),
{
    let n = taken.len();
    let c = Seq::new(n + 1, |j: int| candidate(name, j as nat));
    assert forall|i: int, j: int| 0 <= i < c.len() && 0 <= j < c.len() && i != j implies c[i]
        != c[j] by {
        if c[i] == c[j] {
            lemma_candidates_distinct(name, i as nat, j as nat);
        }
    }
    assert(c.no_duplicates());
    c.unique_seq_to_set();
    taken.lemma_cardinality_of_set();
    assert(c.to_set().subset_of(taken.to_set())) by {
        assert forall|x| c.to_set().contains(x) implies taken.to_set().contains(x) by {
            let i = choose|i: int| 0 <= i < c.len() && c[i] == x;
            assert(taken.contains(candidate(name, i as nat)));
        }
    }
    vstd::set_lib::lemma_len_subset(c.to_set(), taken.to_set());
}

fn candidate_exec(name: &str, k: u64) -> (r: String)
    ensures
        r@ == candidate(name@, k as nat),
{
    let mut r = String::new();
    push_str(&mut r, name);
    if k > 0 {
        push_char(&mut r, '-');
        push_decimal(&mut r, k);
    }
    assert(r@ =~= candidate(name@, k as nat));
    r
}

fn contains_name(taken: &Vec<String>, s: &String) -> (r: bool)
    ensures
        r == views(taken@).contains(s@),
{
    let mut i: usize = 0;
    while i < taken.len()
        invariant
            0 <= i <= taken.len(),
            forall|j: int| 0 <= j < i ==> views(taken@)[j] != s@,
        decreases taken.len() - i,
    {
        if taken[i] == *s {
            assert(views(taken@)[i as int] == s@);
            return true;
        }
        i = i + 1;
    }
    false
}

/// The first of `name`, `name-1`, `name-2`, ... that is not among the names
/// `taken` (the entries already in the directory, broken links included).
pub fn unique_name(name: &str, taken: &Vec<String>) -> (r: String)
    ensures
        !views(taken@).contains(r@),
        exists|k: nat|
            r@ == candidate(name@, k) && forall|j: nat| j < k ==> views(taken@).contains(
                #[trigger] candidate(name@, j),
            ),
{
    let n = taken.len();
    let mut k: usize = 0;
    while k < n
        invariant
            n == taken.len(),
            0 <= k <= n,
            forall|j: nat| j < k ==> views(taken@).contains(#[trigger] candidate(name@, j)),
        decreases n - k,
    {
        let c = candidate_exec(name, k as u64);
        if !contains_name(taken, &c) {
            return c;
        }
        k = k + 1;
    }
    let c = candidate_exec(name, n as u64);
    if !contains_name(taken, &c) {
        return c;
    }
    proof {
        assert(views(taken@).len() == n);
        lemma_all_taken_impossible(name@, views(taken@));
    }
    String::new()
}

/// `name` followed by `.` and a timestamp.
pub open spec fn stamped(name: Seq<char>, sep: Seq<char>, stamp: nat) -> Seq<char> {
    name + sep + dec(stamp)
}

/// Time elapsed since the Unix epoch in nanoseconds (`SystemTime::elapsed`
/// on `UNIX_EPOCH`). The clock decides the value, so no contract is given;
/// a clock set before the epoch gives `None`.
#[verifier::external_body]
fn unix_nanos() -> Option<u128> {
    match std::time::UNIX_EPOCH.elapsed() {
        Ok(d) => Some(d.as_nanos()),
        Err(_) => None,
    }
}

/// Time elapsed since the Unix epoch in whole seconds (`SystemTime::elapsed`
/// on `UNIX_EPOCH`). The clock decides the value, so no contract is given;
/// a clock set before the epoch gives `None`.
#[verifier::external_body]
fn unix_secs() -> Option<u64> {
    match std::time::UNIX_EPOCH.elapsed() {
        Ok(d) => Some(d.as_secs()),
        Err(_) => None,
    }
}

/// Seconds since the Unix epoch, 0 if the clock is set before it.
pub fn now_unix() -> (t: u64) {
    match unix_secs() {
        Some(t) => t,
        None => 0,
    }
}

/// Nanoseconds since the Unix epoch, 0 if the clock is set before it.
pub fn now_unix_nanos() -> (t: u128) {
    match unix_nanos() {
        Some(t) => t,
        None => 0,
    }
}

/// `name` with `sep` and the decimal `stamp` appended.
pub fn stamped_name(name: &str, sep: &str, stamp: u128) -> (r: String)
    ensures
        r@ == stamped(name@, sep@, stamp as nat),
{
    let mut r = String::new();
    push_str(&mut r, name);
    push_str(&mut r, sep);
    push_decimal_u128(&mut r, stamp);
    assert(r@ =~= stamped(name@, sep@, stamp as nat));
    r
}

/// A fresh backup name for the file `file_name`:
/// `<file_name>.dracon-system-backup-<nanos>`, or, where that name is taken,
/// the first of its `-1`, `-2`, ... variants that is not among `taken`.
pub fn backup_name_for(file_name: &str, taken: &Vec<String>) -> (r: String)
    ensures
        !views(taken@).contains(r@),
        exists|t: nat, k: nat|
            #![trigger candidate(stamped(file_name@, ".dracon-system-backup-"@, t), k)]
            r@ == candidate(stamped(file_name@, ".dracon-system-backup-"@, t), k) && forall|
                j: nat,
            |
                j < k ==> views(taken@).contains(
                    #[trigger] candidate(stamped(file_name@, ".dracon-system-backup-"@, t), j),
                ),
{
    let t = now_unix_nanos();
    let base = stamped_name(file_name, ".dracon-system-backup-", t);
    let r = unique_name(base.as_str(), taken);
    proof {
        let k = choose|k: nat|
            r@ == candidate(base@, k) && forall|j: nat| j < k ==> views(taken@).contains(
                #[trigger] candidate(base@, j),
            );
        assert(r@ == candidate(stamped(file_name@, ".dracon-system-backup-"@, t as nat), k));
    }
    r
}

} // verus!
