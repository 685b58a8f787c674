//! Relocation of a cold directory to another disk, leaving a symlink: the
//! plan, the copy check, and the report with the policy entry to add.

use vstd::prelude::*;
use crate::paths::{file_name_spec, file_name, join_spec, join_path};
use crate::protect::views;
use crate::units::{human_bytes, human_bytes_text};
use crate::text::push_str;

verus! {

/// What a relocation would do: move `source` to `dest`, and whether the
/// destination disk has room.
#[derive(Debug, Clone)]
pub struct RelocatePlan {
    pub source: String,
    pub dest: String,
    pub files: u64,
    pub bytes: u64,
    pub dest_avail_bytes: Option<u64>,
    pub fits: bool,
    pub ready: bool,
    pub issues: Vec<String>,
}

/// What an applied relocation did.
#[derive(Debug, Clone)]
pub struct RelocateReport {
    pub link: String,
    pub target: String,
    pub files: u64,
    pub bytes: u64,
    pub skipped_special: u64,
    pub policy_snippet: String,
}

/// Where `source` lands under the destination root: the root joined with
/// the source's file name.
pub open spec fn relocation_dest(source: Seq<char>, root: Seq<char>) -> Option<Seq<char>> {
    match file_name_spec(source) {
        Some(n) => Some(join_spec(root, n)),
        None => None,
    }
}

/// The destination of `canon_source` under `canon_root`; `None` when the
/// source has no file name.
pub fn relocate_dest(canon_source: &str, canon_root: &str) -> (r: Option<String>)
    ensures
        r matches Some(d) ==> relocation_dest(canon_source@, canon_root@) == Some(d@),
        r is None ==> relocation_dest(canon_source@, canon_root@) is None,
{
    match file_name(canon_source) {
        Some(n) => Some(join_path(canon_root, n.as_str())),
        None => None,
    }
}

/// The copy fits when the free space is unknown or at least the size.
pub open spec fn fits_in(avail: Option<u64>, bytes: u64) -> bool {
    match avail {
        Some(a) => a >= bytes,
        None => true,
    }
}

/// A copy fits exactly when the free space is unknown or at least its size:
/// unknown free space never blocks, any free space of at least the size
/// fits, any less does not, and more free space never turns a fit into a
/// misfit.
pub proof fn lemma_fits_when_room_covers_size(avail: Option<u64>, bytes: u64, more: u64)
    ensures
        fits_in(None, bytes),
        avail matches Some(a) && a >= bytes ==> fits_in(avail, bytes),
        avail matches Some(a) && a < bytes ==> !fits_in(avail, bytes),
        fits_in(Some(bytes), bytes),
        bytes > 0 ==> !fits_in(Some((bytes - 1) as u64), bytes),
        avail matches Some(a) && a <= more && fits_in(avail, bytes) ==> fits_in(Some(more), bytes),
{
}

pub open spec fn no_room_issue(avail: u64, bytes: u64) -> Seq<char> {
    "destination has "@ + human_bytes_text(avail as nat) + " free but source needs "@
        + human_bytes_text(bytes as nat)
}

/// Completes a plan from the sizes found: it fits when the destination's
/// free space is unknown or large enough, is ready exactly when it fits,
/// and otherwise carries one issue naming both sizes.
pub fn finish_plan(source: String, dest: String, files: u64, bytes: u64, avail: Option<u64>) -> (p:
    RelocatePlan)
    ensures
        p.source@ == source@,
        p.dest@ == dest@,
        p.files == files,
        p.bytes == bytes,
        p.dest_avail_bytes == avail,
        p.fits == fits_in(avail, bytes),
        p.ready == p.fits,
        avail is None ==> p.fits && p.ready && p.issues@.len() == 0,
        avail matches Some(a) && a >= bytes ==> p.fits && p.ready && p.issues@.len() == 0,
        avail matches Some(a) && a < bytes ==> !p.fits && !p.ready && p.issues@.len() == 1,
        views(p.issues@) == if p.fits {
            Seq::<Seq<char>>::empty()
        } else {
            seq![no_room_issue(avail->0, bytes)]
        },
{
    let fits = match avail {
        Some(a) => a >= bytes,
        None => true,
    };
    let mut issues: Vec<String> = Vec::new();
    if !fits {
        let a = match avail {
            Some(a) => a,
            None => 0,
        };
        let mut msg = String::new();
        push_str(&mut msg, "destination has ");
        let ha = human_bytes(a);
        push_str(&mut msg, ha.as_str());
        push_str(&mut msg, " free but source needs ");
        let hb = human_bytes(bytes);
        push_str(&mut msg, hb.as_str());
        issues.push(msg);
        assert(views(issues@) =~= seq![no_room_issue(avail->0, bytes)]);
    } else {
        assert(views(issues@) =~= Seq::<Seq<char>>::empty());
    }
    RelocatePlan { source, dest, files, bytes, dest_avail_bytes: avail, fits, ready: fits, issues }
}

/// `parts` joined with `sep` between each two of them.
pub open spec fn joined(parts: Seq<Seq<char>>, sep: Seq<char>) -> Seq<char>
    decreases parts.len(),
{
    if parts.len() == 0 {
        Seq::empty()
    } else if parts.len() == 1 {
        parts[0]
    } else {
        joined(parts.drop_last(), sep) + sep + parts.last()
    }
}

/// Why a plan may not be applied: none for a ready plan; otherwise
/// `plan is not ready: ` and its issues joined with `; `.
pub fn readiness_refusal(plan: &RelocatePlan) -> (m: Option<String>)
    ensures
        plan.ready ==> m is None,
        !plan.ready ==> (m matches Some(s) && s@ == "plan is not ready: "@ + joined(
            views(plan.issues@),
            "; "@,
        )),
{
    if plan.ready {
        return None;
    }
    let mut out = String::new();
    push_str(&mut out, "plan is not ready: ");
    let ghost head = out@;
    let ghost parts = views(plan.issues@);
    let mut i: usize = 0;
    assert(parts.take(0) =~= Seq::<Seq<char>>::empty());
    assert(out@ =~= head + joined(parts.take(0), "; "@));
    while i < plan.issues.len()
        invariant
            0 <= i <= plan.issues.len(),
            parts == views(plan.issues@),
            out@ == head + joined(parts.take(i as int), "; "@),
        decreases plan.issues.len() - i,
    {
        let ghost before = out@;
        assert(parts.take(i + 1).drop_last() =~= parts.take(i as int));
        assert(parts.take(i + 1).last() == plan.issues@[i as int]@);
        if i > 0 {
            push_str(&mut out, "; ");
        } else {
            assert(parts.take(1) =~= seq![plan.issues@[0]@]);
        }
        push_str(&mut out, plan.issues[i].as_str());
        assert(out@ =~= head + joined(parts.take(i + 1), "; "@));
        i = i + 1;
    }
    assert(parts.take(plan.issues.len() as int) =~= parts);
    Some(out)
}

/// A copy is accepted only when it has as many files and bytes as the
/// source had.
pub fn copy_verified(expected_files: u64, expected_bytes: u64, got_files: u64, got_bytes: u64) -> (ok:
    bool)
    ensures
        ok == (expected_files == got_files && expected_bytes == got_bytes),
{
    expected_files == got_files && expected_bytes == got_bytes
}

/// The bytes that `u8::is_ascii_whitespace` accepts: space, tab, line feed,
/// form feed and carriage return.
pub open spec fn ascii_space(b: u8) -> bool {
    b == 0x20u8 || b == 0x09u8 || b == 0x0Au8 || b == 0x0Cu8 || b == 0x0Du8
}

/// Whether the output of `git ls-files` names any file: it does unless it
/// is all ASCII whitespace.
pub fn lists_tracked_files(out: &[u8]) -> (b: bool)
    ensures
        b == exists|i: int| 0 <= i < out@.len() && !ascii_space(#[trigger] out@[i]),
{
    let mut i: usize = 0;
    while i < out.len()
        invariant
            0 <= i <= out@.len(),
            forall|j: int| 0 <= j < i ==> ascii_space(#[trigger] out@[j]),
        decreases out@.len() - i,
    {
        let c = out[i];
        if !(c == 0x20u8 || c == 0x09u8 || c == 0x0Au8 || c == 0x0Cu8 || c == 0x0Du8) {
            assert(!ascii_space(out@[i as int]));
            return true;
        }
        i = i + 1;
    }
    false
}

/// The link-policy entry that keeps a relocated directory managed.
pub open spec fn snippet_text(link: Seq<char>, target: Seq<char>) -> Seq<char> {
    "[[links.entries]]\nlink = \""@ + link + "\"\ntarget = \""@ + target + "\"\n"@
}

/// The TOML entry for the policy's link section.
pub fn policy_snippet(link: &str, target: &str) -> (s: String)
    ensures
        s@ == snippet_text(link@, target@),
{
    let mut s = String::new();
    push_str(&mut s, "[[links.entries]]\nlink = \"");
    push_str(&mut s, link);
    push_str(&mut s, "\"\ntarget = \"");
    push_str(&mut s, target);
    push_str(&mut s, "\"\n");
    assert(s@ =~= snippet_text(link@, target@));
    s
}

/// The report of an applied plan: the source is now a link to the
/// destination, with the entry to add to the link policy.
pub fn relocate_report(plan: &RelocatePlan, skipped_special: u64) -> (r: RelocateReport)
    ensures
        r.link@ == plan.source@,
        r.target@ == plan.dest@,
        r.files == plan.files,
        r.bytes == plan.bytes,
        r.skipped_special == skipped_special,
        r.policy_snippet@ == snippet_text(plan.source@, plan.dest@),
{
    RelocateReport {
        link: plan.source.clone(),
        target: plan.dest.clone(),
        files: plan.files,
        bytes: plan.bytes,
        skipped_special,
        policy_snippet: policy_snippet(plan.source.as_str(), plan.dest.as_str()),
    }
}

} // verus!
