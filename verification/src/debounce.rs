//! The debounce coordinator: per watched source path, a burst of raw
//! filesystem events must collapse into a single delayed trigger. Every
//! raw event cancels whatever action was pending for its key and installs
//! a fresh one; a timer that elapses fires only if its action is still
//! the installed one.
//!
//! The coordinator itself is a state machine over plain values: it hands
//! the caller a `ScheduleCmd` saying which delayed action to start and
//! which to cancel, and the caller reports back when a timer elapses.
//! Each action carries a token; tokens are handed out strictly
//! increasing, so a superseded action can never be mistaken for the
//! current one.

use vstd::prelude::*;

verus! {

/// Default quiet window, in milliseconds.
pub const DEFAULT_QUIET_MS: u64 = 1000;

/// What is pending for one key: which action (by token) and when it is
/// due to fire.
#[verifier::ext_equal]
pub ghost struct PendingView {
    pub token: u64,
    pub fire_at: u64,
}

/// What the caller must do after a raw event: start a delayed action
/// with this token, due at `fire_at`, and cancel the action with token
/// `cancelled` first if there is one.
pub struct ScheduleCmd {
    pub token: u64,
    pub fire_at: u64,
    pub cancelled: Option<u64>,
}

struct PendingEntry {
    key: String,
    token: u64,
    fire_at: u64,
}

spec fn entry_view(e: PendingEntry) -> PendingView {
    PendingView { token: e.token, fire_at: e.fire_at }
}

spec fn entry_map(entries: Seq<PendingEntry>) -> Map<Seq<char>, PendingView>
    decreases entries.len(),
{
    if entries.len() == 0 {
        Map::empty()
    } else {
        entry_map(entries.drop_last()).insert(entries.last().key@, entry_view(entries.last()))
    }
}

spec fn distinct_keys(entries: Seq<PendingEntry>) -> bool {
    forall|a: int, b: int|
        0 <= a < b < entries.len() ==> entries[a].key@ != entries[b].key@
}

proof fn lemma_entry_map_domain(entries: Seq<PendingEntry>)
    ensures
        forall|k: Seq<char>|
            #[trigger] entry_map(entries).contains_key(k) <==> exists|i: int|
                0 <= i < entries.len() && entries[i].key@ == k,
    decreases entries.len(),
{
    if entries.len() == 0 {
    } else {
        lemma_entry_map_domain(entries.drop_last());
        assert forall|k: Seq<char>| #[trigger]
            entry_map(entries).contains_key(k) implies exists|i: int|
            0 <= i < entries.len() && entries[i].key@ == k by {
            if k == entries.last().key@ {
                assert(entries[entries.len() - 1].key@ == k);
            } else {
                assert(entry_map(entries.drop_last()).contains_key(k));
                let i = choose|i: int|
                    0 <= i < entries.drop_last().len() && entries.drop_last()[i].key@ == k;
                assert(entries[i].key@ == k);
            }
        }
        assert forall|k: Seq<char>|
            (exists|i: int| 0 <= i < entries.len() && entries[i].key@ == k) implies #[trigger]
            entry_map(entries).contains_key(k) by {
            let i = choose|i: int| 0 <= i < entries.len() && entries[i].key@ == k;
            if i < entries.len() - 1 {
                assert(entries.drop_last()[i].key@ == k);
                assert(exists|j: int|
                    0 <= j < entries.drop_last().len() && entries.drop_last()[j].key@ == k);
                assert(entry_map(entries.drop_last()).contains_key(k));
            } else {
                assert(k == entries.last().key@);
            }
        }
    }
}

proof fn lemma_entry_map_at(entries: Seq<PendingEntry>, i: int)
    requires
        distinct_keys(entries),
        0 <= i < entries.len(),
    ensures
        entry_map(entries).contains_key(entries[i].key@),
        entry_map(entries)[entries[i].key@] == entry_view(entries[i]),
    decreases entries.len(),
{
    if i == entries.len() - 1 {
    } else {
        assert(distinct_keys(entries.drop_last()));
        assert(entries.drop_last()[i] == entries[i]);
        lemma_entry_map_at(entries.drop_last(), i);
        assert(entries[i].key@ != entries.last().key@);
    }
}

proof fn lemma_entry_map_remove(entries: Seq<PendingEntry>, i: int)
    requires
        distinct_keys(entries),
        0 <= i < entries.len(),
    ensures
        entry_map(entries.remove(i)) == entry_map(entries).remove(entries[i].key@),
    decreases entries.len(),
{
    let k = entries[i].key@;
    let m0 = entry_map(entries.drop_last());
    if i == entries.len() - 1 {
        assert(entries.remove(i) =~= entries.drop_last());
        lemma_entry_map_domain(entries.drop_last());
        assert(!m0.contains_key(k));
        assert(m0.insert(k, entry_view(entries.last())).remove(k) =~= m0);
    } else {
        let last = entries.last();
        assert(entries.remove(i).drop_last() =~= entries.drop_last().remove(i));
        assert(entries.remove(i).last() == last);
        assert(distinct_keys(entries.drop_last()));
        lemma_entry_map_remove(entries.drop_last(), i);
        assert(entries.drop_last()[i] == entries[i]);
        assert(last.key@ != k);
        assert(entry_map(entries.remove(i)) == m0.remove(k).insert(last.key@, entry_view(last)));
        assert(m0.remove(k).insert(last.key@, entry_view(last)) =~= m0.insert(
            last.key@,
            entry_view(last),
        ).remove(k));
    }
}

/// A raw event fired for a timer only counts if the pending action for
/// that key is still the one the timer belongs to.
pub open spec fn fires(m: Map<Seq<char>, PendingView>, key: Seq<char>, token: u64) -> bool {
    m.contains_key(key) && m[key].token == token
}

/// The pending map after a burst of raw events for one key, each
/// installing the next of `cmds`.
pub open spec fn burst_steps(
    m: Map<Seq<char>, PendingView>,
    key: Seq<char>,
    cmds: Seq<PendingView>,
) -> Map<Seq<char>, PendingView>
    decreases cmds.len(),
{
    if cmds.len() == 0 {
        m
    } else {
        burst_steps(m, key, cmds.drop_last()).insert(key, cmds.last())
    }
}

/// Debounce coalescing: after a burst of raw events for one key, only
/// the action installed by the last event is pending. Timers of all
/// earlier actions of the burst find themselves superseded and do not
/// fire; the last one does, and at the last event's deadline. Together
/// with `on_timer_fired` (which removes the action it fires) this gives
/// exactly one trigger per burst.
pub proof fn lemma_burst_coalesces(
    m: Map<Seq<char>, PendingView>,
    key: Seq<char>,
    cmds: Seq<PendingView>,
)
    requires
        cmds.len() > 0,
        forall|a: int, b: int| 0 <= a < b < cmds.len() ==> cmds[a].token != cmds[b].token,
    ensures
        burst_steps(m, key, cmds) == m.insert(key, cmds.last()),
        forall|i: int| 0 <= i < cmds.len() - 1 ==> !fires(burst_steps(m, key, cmds), key, cmds[i].token),
        fires(burst_steps(m, key, cmds), key, cmds.last().token),
        burst_steps(m, key, cmds)[key].fire_at == cmds.last().fire_at,
    decreases cmds.len(),
{
    if cmds.len() == 1 {
        assert(cmds.drop_last().len() == 0);
        assert(burst_steps(m, key, cmds.drop_last()) == m);
        assert(burst_steps(m, key, cmds) == m.insert(key, cmds.last()));
    } else {
        assert(forall|a: int, b: int|
            0 <= a < b < cmds.drop_last().len() ==> cmds.drop_last()[a].token
                != cmds.drop_last()[b].token);
        lemma_burst_coalesces(m, key, cmds.drop_last());
        assert(m.insert(key, cmds[cmds.len() - 2]).insert(key, cmds.last()) =~= m.insert(
            key,
            cmds.last(),
        ));
    }
}

/// Once a timer has fired and its action was consumed, the same timer
/// cannot fire again.
pub proof fn lemma_fire_consumes(m: Map<Seq<char>, PendingView>, key: Seq<char>, token: u64)
    ensures
        !fires(m.remove(key), key, token),
{
}

/// Debounce independence: a raw event for one key never touches what is
/// pending for any other key.
pub proof fn lemma_raw_event_independent(
    m: Map<Seq<char>, PendingView>,
    key: Seq<char>,
    v: PendingView,
    other: Seq<char>,
)
    requires
        other != key,
    ensures
        m.insert(key, v).contains_key(other) == m.contains_key(other),
        m.contains_key(other) ==> m.insert(key, v)[other] == m[other],
{
}

/// Per-key coalescing of raw filesystem events: at most one pending
/// delayed action per key, replaced (and the old one cancelled) on every
/// new raw event for that key.
pub struct Debouncer {
    quiet_ms: u64,
    next_token: u64,
    entries: Vec<PendingEntry>,
}

fn find_entry(entries: &Vec<PendingEntry>, key: &String) -> (r: Option<usize>)
    ensures
        match r {
            Some(i) => i < entries@.len() && entries@[i as int].key@ == key@,
            None => forall|j: int| 0 <= j < entries@.len() ==> entries@[j].key@ != key@,
        },
{
    let mut i: usize = 0;
    while i < entries.len()
        invariant
            i <= entries@.len(),
            forall|j: int| 0 <= j < i ==> entries@[j].key@ != key@,
        decreases entries@.len() - i,
    {
        if entries[i].key == *key {
            return Some(i);
        }
        i += 1;
    }
    None
}

impl Debouncer {
    /// The pending map: for each key with a pending delayed action, its
    /// token and deadline.
    pub closed spec fn pending(&self) -> Map<Seq<char>, PendingView> {
        entry_map(self.entries@)
    }

    /// The configured quiet window.
    pub closed spec fn quiet(&self) -> u64 {
        self.quiet_ms
    }

    /// The token the next raw event will hand out.
    pub closed spec fn next(&self) -> u64 {
        self.next_token
    }

    pub closed spec fn wf(&self) -> bool {
        distinct_keys(self.entries@)
    }

    pub fn new(quiet_ms: u64) -> (d: Debouncer)
        ensures
            d.wf(),
            d.pending() == Map::<Seq<char>, PendingView>::empty(),
            d.quiet() == quiet_ms,
            d.next() == 0,
    {
        Debouncer { quiet_ms, next_token: 0, entries: Vec::new() }
    }

    /// A raw filesystem event for `key` at time `now`: cancel whatever
    /// was pending for `key`, install a fresh delayed action due a quiet
    /// window later, and tell the caller both. Keys other than `key` are
    /// untouched.
    pub fn on_raw_event(&mut self, key: &str, now: u64) -> (cmd: ScheduleCmd)
        requires
            old(self).wf(),
            old(self).next() < u64::MAX,
            now + old(self).quiet() <= u64::MAX,
        ensures
            final(self).wf(),
            final(self).quiet() == old(self).quiet(),
            final(self).next() == old(self).next() + 1,
            cmd.token == old(self).next(),
            cmd.fire_at == now + old(self).quiet(),
            cmd.cancelled == (if old(self).pending().contains_key(key@) {
                Some(old(self).pending()[key@].token)
            } else {
                Option::<u64>::None
            }),
            final(self).pending() == old(self).pending().insert(
                key@,
                PendingView { token: cmd.token, fire_at: cmd.fire_at },
            ),
            forall|k: Seq<char>|
                #![all_triggers]
                k != key@ ==> (final(self).pending().contains_key(k) == old(
                    self,
                ).pending().contains_key(k) && (old(self).pending().contains_key(k)
                    ==> final(self).pending()[k] == old(self).pending()[k])),
    {
        let key_s: String = key.to_owned();
        let ghost entries0 = self.entries@;
        proof {
            lemma_entry_map_domain(entries0);
        }
        let cancelled: Option<u64> = match find_entry(&self.entries, &key_s) {
            Some(i) => {
                proof {
                    lemma_entry_map_at(entries0, i as int);
                    lemma_entry_map_remove(entries0, i as int);
                }
                let e = self.entries.remove(i);
                Some(e.token)
            },
            None => {
                proof {
                    assert(entry_map(entries0).remove(key@) =~= entry_map(entries0));
                }
                None
            },
        };
        let ghost entries1 = self.entries@;
        proof {
            assert(distinct_keys(entries1));
            assert(forall|j: int| 0 <= j < entries1.len() ==> entries1[j].key@ != key@);
            assert(entry_map(entries1) == entry_map(entries0).remove(key@));
        }
        let token: u64 = self.next_token;
        self.next_token = token + 1;
        let fire_at: u64 = now + self.quiet_ms;
        self.entries.push(PendingEntry { key: key_s, token, fire_at });
        proof {
            assert(self.entries@.drop_last() =~= entries1);
            assert(self.entries@.last().key@ == key@);
            assert(entry_map(self.entries@) == entry_map(entries1).insert(
                key@,
                PendingView { token, fire_at },
            ));
            assert(entry_map(entries0).remove(key@).insert(key@, PendingView { token, fire_at })
                =~= entry_map(entries0).insert(key@, PendingView { token, fire_at }));
        }
        ScheduleCmd { token, fire_at, cancelled }
    }

    /// A delayed action's timer elapsed. It fires only if it is still
    /// the pending action for its key; firing consumes the entry, so the
    /// same action can fire at most once. A superseded timer changes
    /// nothing.
    pub fn on_timer_fired(&mut self, key: &str, token: u64) -> (fire: bool)
        requires
            old(self).wf(),
        ensures
            final(self).wf(),
            final(self).quiet() == old(self).quiet(),
            final(self).next() == old(self).next(),
            fire == fires(old(self).pending(), key@, token),
            fire ==> final(self).pending() == old(self).pending().remove(key@),
            !fire ==> final(self).pending() == old(self).pending(),
    {
        let key_s: String = key.to_owned();
        let ghost entries0 = self.entries@;
        proof {
            lemma_entry_map_domain(entries0);
        }
        match find_entry(&self.entries, &key_s) {
            Some(i) => {
                proof {
                    lemma_entry_map_at(entries0, i as int);
                }
                if self.entries[i].token == token {
                    proof {
                        lemma_entry_map_remove(entries0, i as int);
                    }
                    self.entries.remove(i);
                    true
                } else {
                    false
                }
            },
            None => false,
        }
    }
}

} // verus!
