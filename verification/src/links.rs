//! Managed symbolic links: the policy entries, the state of each link, the
//! report over all of them, and what applying the policy does to each.

use vstd::prelude::*;

verus! {

/// A link that the policy keeps pointing at a target.
#[derive(Debug, Clone)]
pub struct LinkEntry {
    pub link: String,
    pub target: String,
}

/// The managed links.
#[derive(Debug, Clone)]
pub struct LinkPolicy {
    pub entries: Vec<LinkEntry>,
}

impl Default for LinkPolicy {
    fn default() -> (p: LinkPolicy)
        ensures
            p.entries@.len() == 0,
    {
        LinkPolicy { entries: Vec::new() }
    }
}

} // verus!

verus! {

/// What the filesystem shows of one managed link, gathered before the
/// decision: whether the link path exists (without following it), whether
/// it is a symlink, whether the configured target exists, where the link
/// points as written, and both ends resolved to comparable paths.
#[derive(Debug, Clone)]
pub struct LinkProbe {
    pub exists: bool,
    pub is_symlink: bool,
    pub target_exists: bool,
    pub points_to: String,
    pub points_to_resolved: String,
    pub target_resolved: String,
}

/// The state of one managed link.
#[derive(Debug, Clone)]
pub struct LinkEntryStatus {
    pub link: String,
    pub target: String,
    pub exists: bool,
    pub is_symlink: bool,
    pub target_exists: bool,
    pub points_to: String,
    pub in_sync: bool,
    pub issue: String,
}

/// The issue that a probe shows, most basic first.
pub open spec fn link_issue(p: LinkProbe) -> Seq<char> {
    if !p.exists {
        "link_missing"@
    } else if !p.is_symlink {
        "path_not_symlink"@
    } else if p.points_to_resolved@ != p.target_resolved@ {
        "link_target_mismatch"@
    } else if !p.target_exists {
        "target_missing"@
    } else {
        "ok"@
    }
}

/// A link is in sync when it is a symlink to the configured, existing target.
pub open spec fn link_in_sync(p: LinkProbe) -> bool {
    p.exists && p.is_symlink && p.points_to_resolved@ == p.target_resolved@ && p.target_exists
}

/// The state of a managed link, from what the filesystem shows of it.
pub fn evaluate_link(entry: &LinkEntry, probe: &LinkProbe) -> (s: LinkEntryStatus)
    ensures
        s.link@ == entry.link@,
        s.target@ == entry.target@,
        s.exists == probe.exists,
        s.is_symlink == probe.is_symlink,
        s.target_exists == probe.target_exists,
        s.points_to@ == probe.points_to@,
        s.in_sync == link_in_sync(*probe),
        s.issue@ == link_issue(*probe),
{
    let same = probe.points_to_resolved == probe.target_resolved;
    let issue: &str = if !probe.exists {
        "link_missing"
    } else if !probe.is_symlink {
        "path_not_symlink"
    } else if !same {
        "link_target_mismatch"
    } else if !probe.target_exists {
        "target_missing"
    } else {
        "ok"
    };
    LinkEntryStatus {
        link: entry.link.clone(),
        target: entry.target.clone(),
        exists: probe.exists,
        is_symlink: probe.is_symlink,
        target_exists: probe.target_exists,
        points_to: probe.points_to.clone(),
        in_sync: probe.exists && probe.is_symlink && same && probe.target_exists,
        issue: issue.to_owned(),
    }
}

/// A link is in sync exactly when its issue is `ok`.
pub proof fn lemma_in_sync_iff_ok(p: LinkProbe)
    ensures
        link_in_sync(p) <==> link_issue(p) == "ok"@,
{
    reveal_strlit("ok");
    reveal_strlit("link_missing");
    reveal_strlit("path_not_symlink");
    reveal_strlit("link_target_mismatch");
    reveal_strlit("target_missing");
    if !link_in_sync(p) {
        assert(link_issue(p).len() != "ok"@.len());
    }
}

/// Counts over the states of all managed links.
#[derive(Debug, Clone)]
pub struct LinkStatusReport {
    pub entries: Vec<LinkEntryStatus>,
    pub total: usize,
    pub healthy: usize,
    pub drifted: usize,
    pub missing_target: usize,
    pub missing_link: usize,
}

pub open spec fn count_in_sync(s: Seq<LinkEntryStatus>) -> nat
    decreases s.len(),
{
    if s.len() == 0 {
        0
    } else {
        count_in_sync(s.drop_last()) + if s.last().in_sync {
            1nat
        } else {
            0nat
        }
    }
}

pub open spec fn count_missing_target(s: Seq<LinkEntryStatus>) -> nat
    decreases s.len(),
{
    if s.len() == 0 {
        0
    } else {
        count_missing_target(s.drop_last()) + if !s.last().target_exists {
            1nat
        } else {
            0nat
        }
    }
}

pub open spec fn count_missing_link(s: Seq<LinkEntryStatus>) -> nat
    decreases s.len(),
{
    if s.len() == 0 {
        0
    } else {
        count_missing_link(s.drop_last()) + if !s.last().exists {
            1nat
        } else {
            0nat
        }
    }
}

proof fn lemma_counts_bounded(s: Seq<LinkEntryStatus>)
    ensures
        count_in_sync(s) <= s.len(),
        count_missing_target(s) <= s.len(),
        count_missing_link(s) <= s.len(),
    decreases s.len(),
{
    if s.len() > 0 {
        lemma_counts_bounded(s.drop_last());
    }
}

/// Summarizes link states: `healthy` counts the links in sync, `drifted`
/// the others, `missing_target` and `missing_link` the absent ends.
pub fn build_link_report(entries: Vec<LinkEntryStatus>) -> (r: LinkStatusReport)
    ensures
        r.entries@ == entries@,
        r.total == entries@.len(),
        r.healthy == count_in_sync(entries@),
        r.drifted == entries@.len() - count_in_sync(entries@),
        r.missing_target == count_missing_target(entries@),
        r.missing_link == count_missing_link(entries@),
{
    let mut healthy: usize = 0;
    let mut missing_target: usize = 0;
    let mut missing_link: usize = 0;
    let mut i: usize = 0;
    while i < entries.len()
        invariant
            0 <= i <= entries.len(),
            healthy == count_in_sync(entries@.take(i as int)),
            missing_target == count_missing_target(entries@.take(i as int)),
            missing_link == count_missing_link(entries@.take(i as int)),
        decreases entries.len() - i,
    {
        proof {
            let t = entries@.take(i + 1);
            assert(t.drop_last() =~= entries@.take(i as int));
            lemma_counts_bounded(entries@.take(i as int));
        }
        if entries[i].in_sync {
            healthy = healthy + 1;
        }
        if !entries[i].target_exists {
            missing_target = missing_target + 1;
        }
        if !entries[i].exists {
            missing_link = missing_link + 1;
        }
        i = i + 1;
    }
    assert(entries@.take(entries@.len() as int) =~= entries@);
    proof {
        lemma_counts_bounded(entries@);
    }
    let total = entries.len();
    LinkStatusReport {
        entries,
        total,
        healthy,
        drifted: total - healthy,
        missing_target,
        missing_link,
    }
}

/// Every link is either healthy or drifted, and no count exceeds the total.
pub proof fn lemma_report_partitions(entries: Seq<LinkEntryStatus>)
    ensures
        count_in_sync(entries) + (entries.len() - count_in_sync(entries)) == entries.len(),
        count_in_sync(entries) <= entries.len(),
        count_missing_target(entries) <= entries.len(),
        count_missing_link(entries) <= entries.len(),
{
    lemma_counts_bounded(entries);
}

/// What applying the policy does to one link.
#[derive(Debug, Clone, Copy, PartialEq, Eq)]
pub enum LinkAction {
    /// The link is in sync: nothing to do.
    Keep,
    /// Nothing is at the link path: create the link.
    Create,
    /// A symlink points elsewhere: remove the link itself and create it anew.
    Relink,
    /// A real file or directory is in the way: move it to a backup, then
    /// create the link.
    BackupAndCreate,
    /// A real file or directory is in the way and replacing was not asked for.
    Refuse,
}

pub open spec fn link_action_for(s: LinkEntryStatus, force_replace: bool) -> LinkAction {
    if s.in_sync {
        LinkAction::Keep
    } else if !s.exists {
        LinkAction::Create
    } else if s.is_symlink {
        LinkAction::Relink
    } else if force_replace {
        LinkAction::BackupAndCreate
    } else {
        LinkAction::Refuse
    }
}

/// Decides how to bring one link in line with the policy. A symlink is never
/// followed: removing it leaves its target alone.
pub fn link_action(status: &LinkEntryStatus, force_replace: bool) -> (a: LinkAction)
    ensures
        a == link_action_for(*status, force_replace),
{
    if status.in_sync {
        LinkAction::Keep
    } else if !status.exists {
        LinkAction::Create
    } else if status.is_symlink {
        LinkAction::Relink
    } else if force_replace {
        LinkAction::BackupAndCreate
    } else {
        LinkAction::Refuse
    }
}

/// A link already in sync is left alone, so applying twice is a no-op the
/// second time; a non-link in the way is only moved when asked.
pub proof fn lemma_apply_keeps_in_sync(s: LinkEntryStatus, force: bool)
    ensures
        s.in_sync ==> link_action_for(s, force) == LinkAction::Keep,
        link_action_for(s, force) == LinkAction::BackupAndCreate ==> force && s.exists
            && !s.is_symlink,
{
}

} // verus!
