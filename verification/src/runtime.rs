//! State the guard keeps between passes, and notification cooldowns.

use vstd::prelude::*;
use crate::naming::now_unix;

verus! {

/// When a notification key last fired.
#[derive(Debug, Clone)]
pub struct NotifyMark {
    pub key: String,
    pub at_unix: u64,
}

/// What the guard remembers from one pass to the next.
#[derive(Debug, Clone)]
pub struct GuardRuntimeState {
    /// Passes run so far.
    pub guard_cycle: u64,
    /// Pass of the last proactive cleanup, if any.
    pub last_proactive_cleanup: Option<u64>,
    /// Last firing time of each notification key (a later mark of a key
    /// overrides an earlier one).
    pub notified: Vec<NotifyMark>,
}

impl Default for GuardRuntimeState {
    fn default() -> (s: GuardRuntimeState)
        ensures
            s.guard_cycle == 0,
            s.last_proactive_cleanup is None,
            s.notified@.len() == 0,
    {
        GuardRuntimeState { guard_cycle: 0, last_proactive_cleanup: None, notified: Vec::new() }
    }
}

/// Last firing time of each key; later marks override earlier ones.
pub open spec fn notify_map(marks: Seq<NotifyMark>) -> Map<Seq<char>, u64>
    decreases marks.len(),
{
    if marks.len() == 0 {
        Map::empty()
    } else {
        notify_map(marks.drop_last()).insert(marks.last().key@, marks.last().at_unix)
    }
}

impl GuardRuntimeState {
    /// Last firing time of each notification key.
    pub open spec fn last_notified(&self) -> Map<Seq<char>, u64> {
        notify_map(self.notified@)
    }
}

/// A key may fire when it never fired, or fired at least `cooldown` seconds
/// before `now`.
pub open spec fn may_notify(last: Map<Seq<char>, u64>, key: Seq<char>, cooldown: u64, now: u64) -> bool {
    !last.dom().contains(key) || (if now >= last[key] {
        now - last[key]
    } else {
        0
    }) >= cooldown
}

proof fn lemma_lookup_last(marks: Seq<NotifyMark>, i: int, key: Seq<char>)
    requires
        0 <= i < marks.len(),
        marks[i].key@ == key,
        forall|j: int| i < j < marks.len() ==> (#[trigger] marks[j]).key@ != key,
    ensures
        notify_map(marks).dom().contains(key),
        notify_map(marks)[key] == marks[i].at_unix,
    decreases marks.len(),
{
    if i < marks.len() - 1 {
        assert forall|j: int| i < j < marks.drop_last().len() implies (#[trigger] marks.drop_last()[j]).key@
            != key by {
            assert(marks.drop_last()[j] == marks[j]);
        }
        lemma_lookup_last(marks.drop_last(), i, key);
    }
}

proof fn lemma_lookup_absent(marks: Seq<NotifyMark>, key: Seq<char>)
    requires
        forall|j: int| 0 <= j < marks.len() ==> (#[trigger] marks[j]).key@ != key,
    ensures
        !notify_map(marks).dom().contains(key),
    decreases marks.len(),
{
    if marks.len() > 0 {
        assert forall|j: int| 0 <= j < marks.drop_last().len() implies (#[trigger] marks.drop_last()[j]).key@
            != key by {
            assert(marks.drop_last()[j] == marks[j]);
        }
        lemma_lookup_absent(marks.drop_last(), key);
    }
}

proof fn lemma_update_last(marks: Seq<NotifyMark>, i: int, m: NotifyMark)
    requires
        0 <= i < marks.len(),
        marks[i].key@ == m.key@,
        forall|j: int| i < j < marks.len() ==> (#[trigger] marks[j]).key@ != m.key@,
    ensures
        notify_map(marks.update(i, m)) == notify_map(marks).insert(m.key@, m.at_unix),
    decreases marks.len(),
{
    let u = marks.update(i, m);
    if i == marks.len() - 1 {
        assert(u.drop_last() =~= marks.drop_last());
        assert(notify_map(u) =~= notify_map(marks).insert(m.key@, m.at_unix));
    } else {
        assert forall|j: int| i < j < marks.drop_last().len() implies (#[trigger] marks.drop_last()[j]).key@
            != m.key@ by {
            assert(marks.drop_last()[j] == marks[j]);
        }
        lemma_update_last(marks.drop_last(), i, m);
        assert(u.drop_last() =~= marks.drop_last().update(i, m));
        let l = marks.last();
        assert(u.last() == l);
        assert(l.key@ != m.key@);
        assert(notify_map(u) =~= notify_map(marks).insert(m.key@, m.at_unix));
    }
}

/// Decides whether the notification `key` may fire at `now` and, when it
/// does, records `now` as its last firing; a refused key leaves the state
/// unchanged.
pub fn should_notify_at(state: &mut GuardRuntimeState, key: &str, cooldown_secs: u64, now: u64) -> (fire:
    bool)
    ensures
        fire == may_notify(old(state).last_notified(), key@, cooldown_secs, now),
        final(state).last_notified() == if fire {
            old(state).last_notified().insert(key@, now)
        } else {
            old(state).last_notified()
        },
        final(state).guard_cycle == old(state).guard_cycle,
        final(state).last_proactive_cleanup == old(state).last_proactive_cleanup,
{
    let k = key.to_owned();
    let n = state.notified.len();
    let mut i = n;
    while i > 0 && state.notified[i - 1].key != k
        invariant
            0 <= i <= n,
            n == state.notified@.len(),
            k@ == key@,
            forall|j: int| i <= j < n ==> (#[trigger] state.notified@[j]).key@ != key@,
        decreases i,
    {
        i = i - 1;
    }
    if i == 0 {
        proof {
            lemma_lookup_absent(state.notified@, key@);
        }
        let ghost m0 = state.notified@;
        state.notified.push(NotifyMark { key: k, at_unix: now });
        assert(state.notified@.drop_last() =~= m0);
        return true;
    }
    let idx = i - 1;
    proof {
        lemma_lookup_last(state.notified@, idx as int, key@);
    }
    let last = state.notified[idx].at_unix;
    if now.saturating_sub(last) < cooldown_secs {
        return false;
    }
    let ghost m0 = state.notified@;
    let mark = NotifyMark { key: k, at_unix: now };
    proof {
        lemma_update_last(m0, idx as int, mark);
    }
    state.notified.set(idx, mark);
    true
}

/// Decides whether the notification `key` may fire now, under a cooldown in
/// seconds, and records the firing.
pub fn should_notify(state: &mut GuardRuntimeState, key: &str, cooldown_secs: u64) -> (fire: bool)
    ensures
        exists|now: u64|
            fire == may_notify(old(state).last_notified(), key@, cooldown_secs, now)
                && final(state).last_notified() == if fire {
                old(state).last_notified().insert(key@, now)
            } else {
                old(state).last_notified()
            },
{
    let now = now_unix();
    should_notify_at(state, key, cooldown_secs, now)
}

/// Right after a key fires, it cannot fire again within its cooldown, and
/// firing one key leaves every other key as it was.
pub proof fn lemma_cooldown_blocks_repeat(
    last: Map<Seq<char>, u64>,
    key: Seq<char>,
    other: Seq<char>,
    cooldown: u64,
    t1: u64,
    t2: u64,
)
    requires
        cooldown > 0,
        t1 <= t2 < t1 + cooldown,
        other != key,
    ensures
        !may_notify(last.insert(key, t1), key, cooldown, t2),
        may_notify(last.insert(key, t1), other, cooldown, t2) == may_notify(last, other, cooldown, t2),
{
    assert(last.insert(key, t1).dom().contains(key));
}

} // verus!
