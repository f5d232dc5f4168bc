//! The dispatcher-side logic that works on plain values: deciding pod
//! readiness, filtering a pod listing down to the ready pods' names, the
//! per-context client cache, and the error and outcome taxonomy. The
//! cluster calls themselves (loading configuration, constructing
//! clients, listing pods, running a copy) are I/O and live outside the
//! library; they hand these functions plain values.

use vstd::prelude::*;

verus! {

/// Why a cluster-side step failed. Each is scoped to the requesting
/// operation: other contexts and later triggers continue.
#[derive(Debug)]
pub enum SyncError {
    /// Cluster configuration for a context could not be loaded.
    ConfigLoadError(String),
    /// A client could not be constructed from the loaded configuration.
    ClientInitError(String),
    /// A list or readiness query failed; the caller treats this as "no
    /// pods currently known ready" and proceeds without retry.
    ClusterQueryError(String),
}

/// Outcome of one copy operation. A failure is reported, never raised,
/// so sibling copies in the same fan-out are unaffected.
#[derive(Debug)]
pub enum CopyOutcome {
    Success,
    Failure(String),
}

/// View of a copy outcome, with the failure detail as a character
/// sequence.
pub ghost enum CopyOutcomeView {
    Success,
    Failure(Seq<char>),
}

impl View for CopyOutcome {
    type V = CopyOutcomeView;

    open spec fn view(&self) -> CopyOutcomeView {
        match self {
            CopyOutcome::Success => CopyOutcomeView::Success,
            CopyOutcome::Failure(d) => CopyOutcomeView::Failure(d@),
        }
    }
}

/// What the core reads of one listed pod: its reported name, if any,
/// and the ready flag of every reported container, if statuses were
/// reported at all.
pub struct PodInfo {
    pub name: Option<String>,
    pub container_ready: Option<Vec<bool>>,
}

/// View of a listed pod.
#[verifier::ext_equal]
pub ghost struct PodInfoView {
    pub name: Option<Seq<char>>,
    pub container_ready: Option<Seq<bool>>,
}

impl View for PodInfo {
    type V = PodInfoView;

    open spec fn view(&self) -> PodInfoView {
        PodInfoView {
            name: match self.name {
                Option::Some(n) => Option::Some(n@),
                Option::None => Option::None,
            },
            container_ready: match self.container_ready {
                Option::Some(v) => Option::Some(v@),
                Option::None => Option::None,
            },
        }
    }
}

/// A pod is ready iff container statuses were reported, at least one
/// container was reported, and every reported container is ready. A pod
/// with no reported container statuses is not ready (fail-closed).
pub open spec fn pod_ready(p: PodInfoView) -> bool {
    match p.container_ready {
        Option::Some(cs) => cs.len() > 0 && forall|i: int| 0 <= i < cs.len() ==> cs[i],
        Option::None => false,
    }
}

/// Decide readiness of one pod, fail-closed.
pub fn is_pod_ready(p: &PodInfo) -> (r: bool)
    ensures
        r == pod_ready(p@),
{
    match &p.container_ready {
        Option::Some(cs) => {
            proof {
                assert(p@.container_ready == Option::Some(cs@));
            }
            if cs.len() == 0 {
                return false;
            }
            let mut i: usize = 0;
            while i < cs.len()
                invariant
                    i <= cs@.len(),
                    p@.container_ready == Option::Some(cs@),
                    forall|j: int| 0 <= j < i ==> cs@[j],
                decreases cs@.len() - i,
            {
                if !cs[i] {
                    assert(!cs@[i as int]);
                    return false;
                }
                i += 1;
            }
            true
        },
        Option::None => false,
    }
}

/// The names of the ready pods among the first `n` listed, in listing
/// order; a ready pod without a reported name is dropped.
pub open spec fn ready_names_upto(pods: Seq<PodInfoView>, n: int) -> Seq<Seq<char>>
    decreases n,
{
    if n <= 0 {
        Seq::empty()
    } else {
        let rest = ready_names_upto(pods, n - 1);
        if pod_ready(pods[n - 1]) {
            match pods[n - 1].name {
                Option::Some(nm) => rest.push(nm),
                Option::None => rest,
            }
        } else {
            rest
        }
    }
}

/// The names of all ready pods in the listing, in listing order.
pub open spec fn ready_names(pods: Seq<PodInfoView>) -> Seq<Seq<char>> {
    ready_names_upto(pods, pods.len() as int)
}

/// Filter a pod listing down to the names of its ready pods.
pub fn ready_pod_names(pods: &Vec<PodInfo>) -> (r: Vec<String>)
    ensures
        r@.map_values(|s: String| s@) == ready_names(pods@.map_values(|p: PodInfo| p@)),
{
    let ghost pv = pods@.map_values(|p: PodInfo| p@);
    let mut r: Vec<String> = Vec::new();
    let mut i: usize = 0;
    while i < pods.len()
        invariant
            i <= pods@.len(),
            pv == pods@.map_values(|p: PodInfo| p@),
            r@.map_values(|s: String| s@) == ready_names_upto(pv, i as int),
        decreases pods@.len() - i,
    {
        let ghost r_before = r@;
        if is_pod_ready(&pods[i]) {
            match &pods[i].name {
                Option::Some(nm) => {
                    r.push(nm.clone());
                    proof {
                        assert(r@.map_values(|s: String| s@) =~= r_before.map_values(
                            |s: String| s@,
                        ).push(nm@));
                    }
                },
                Option::None => {},
            }
        }
        proof {
            assert(pv[i as int] == pods@[i as int]@);
            assert(ready_names_upto(pv, i + 1 as int) == if pod_ready(pv[i as int]) {
                match pv[i as int].name {
                    Option::Some(nm) => ready_names_upto(pv, i as int).push(nm),
                    Option::None => ready_names_upto(pv, i as int),
                }
            } else {
                ready_names_upto(pv, i as int)
            });
        }
        i += 1;
    }
    r
}

struct CacheEntry {
    context: String,
    handle: u64,
}

spec fn cache_map(entries: Seq<CacheEntry>) -> Map<Seq<char>, u64>
    decreases entries.len(),
{
    if entries.len() == 0 {
        Map::empty()
    } else {
        cache_map(entries.drop_last()).insert(entries.last().context@, entries.last().handle)
    }
}

spec fn distinct_contexts(entries: Seq<CacheEntry>) -> bool {
    forall|a: int, b: int|
        0 <= a < b < entries.len() ==> entries[a].context@ != entries[b].context@
}

proof fn lemma_cache_map_domain(entries: Seq<CacheEntry>)
    ensures
        forall|k: Seq<char>|
            #[trigger] cache_map(entries).contains_key(k) <==> exists|i: int|
                0 <= i < entries.len() && entries[i].context@ == k,
    decreases entries.len(),
{
    if entries.len() == 0 {
    } else {
        lemma_cache_map_domain(entries.drop_last());
        assert forall|k: Seq<char>| #[trigger]
            cache_map(entries).contains_key(k) implies exists|i: int|
            0 <= i < entries.len() && entries[i].context@ == k by {
            if k == entries.last().context@ {
                assert(entries[entries.len() - 1].context@ == k);
            } else {
                assert(cache_map(entries.drop_last()).contains_key(k));
                let i = choose|i: int|
                    0 <= i < entries.drop_last().len() && entries.drop_last()[i].context@ == k;
                assert(entries[i].context@ == k);
            }
        }
        assert forall|k: Seq<char>|
            (exists|i: int| 0 <= i < entries.len() && entries[i].context@ == k) implies #[trigger]
            cache_map(entries).contains_key(k) by {
            let i = choose|i: int| 0 <= i < entries.len() && entries[i].context@ == k;
            if i < entries.len() - 1 {
                assert(entries.drop_last()[i].context@ == k);
                assert(exists|j: int|
                    0 <= j < entries.drop_last().len() && entries.drop_last()[j].context@ == k);
                assert(cache_map(entries.drop_last()).contains_key(k));
            } else {
                assert(k == entries.last().context@);
            }
        }
    }
}

proof fn lemma_cache_map_at(entries: Seq<CacheEntry>, i: int)
    requires
        distinct_contexts(entries),
        0 <= i < entries.len(),
    ensures
        cache_map(entries).contains_key(entries[i].context@),
        cache_map(entries)[entries[i].context@] == entries[i].handle,
    decreases entries.len(),
{
    if i == entries.len() - 1 {
    } else {
        assert(distinct_contexts(entries.drop_last()));
        assert(entries.drop_last()[i] == entries[i]);
        lemma_cache_map_at(entries.drop_last(), i);
        assert(entries[i].context@ != entries.last().context@);
    }
}

fn find_context(entries: &Vec<CacheEntry>, key: &String) -> (r: Option<usize>)
    ensures
        match r {
            Some(i) => i < entries@.len() && entries@[i as int].context@ == key@,
            None => forall|j: int| 0 <= j < entries@.len() ==> entries@[j].context@ != key@,
        },
{
    let mut i: usize = 0;
    while i < entries.len()
        invariant
            i <= entries@.len(),
            forall|j: int| 0 <= j < i ==> entries@[j].context@ != key@,
        decreases entries@.len() - i,
    {
        if entries[i].context == *key {
            return Some(i);
        }
        i += 1;
    }
    None
}

/// One reusable client handle per cluster context, created lazily on
/// first use and never evicted. The handle is an opaque identifier the
/// surrounding program pairs with the real client it constructed.
pub struct ClientCache {
    entries: Vec<CacheEntry>,
}

impl ClientCache {
    /// The cached handles: context identifier to handle.
    pub closed spec fn cached(&self) -> Map<Seq<char>, u64> {
        cache_map(self.entries@)
    }

    pub closed spec fn wf(&self) -> bool {
        distinct_contexts(self.entries@)
    }

    pub fn new() -> (c: ClientCache)
        ensures
            c.wf(),
            c.cached() == Map::<Seq<char>, u64>::empty(),
    {
        ClientCache { entries: Vec::new() }
    }

    /// The cached handle for `context`, if one was inserted before.
    pub fn get(&self, context: &str) -> (r: Option<u64>)
        requires
            self.wf(),
        ensures
            r == (if self.cached().contains_key(context@) {
                Some(self.cached()[context@])
            } else {
                Option::<u64>::None
            }),
    {
        proof {
            lemma_cache_map_domain(self.entries@);
        }
        let key: String = context.to_owned();
        match find_context(&self.entries, &key) {
            Some(i) => {
                proof {
                    lemma_cache_map_at(self.entries@, i as int);
                }
                Some(self.entries[i].handle)
            },
            None => None,
        }
    }

    /// Cache `handle` for `context`. A handle already cached for the
    /// same context is replaced: duplicate construction after a race is
    /// wasteful but tolerated, and the two handles are interchangeable.
    pub fn insert(&mut self, context: &str, handle: u64)
        requires
            old(self).wf(),
        ensures
            final(self).wf(),
            final(self).cached() == old(self).cached().insert(context@, handle),
    {
        let key: String = context.to_owned();
        let ghost entries0 = self.entries@;
        proof {
            lemma_cache_map_domain(entries0);
        }
        match find_context(&self.entries, &key) {
            Some(i) => {
                proof {
                    lemma_cache_map_at(entries0, i as int);
                    lemma_cache_map_remove(entries0, i as int);
                }
                self.entries.remove(i);
            },
            None => {
                proof {
                    assert(cache_map(entries0).remove(context@) =~= cache_map(entries0));
                }
            },
        }
        let ghost entries1 = self.entries@;
        proof {
            assert(distinct_contexts(entries1));
            assert(forall|j: int| 0 <= j < entries1.len() ==> entries1[j].context@ != context@);
            assert(cache_map(entries1) == cache_map(entries0).remove(context@));
        }
        self.entries.push(CacheEntry { context: key, handle });
        proof {
            assert(self.entries@.drop_last() =~= entries1);
            assert(self.entries@.last().context@ == context@);
            assert(cache_map(self.entries@) == cache_map(entries1).insert(context@, handle));
            assert(cache_map(entries0).remove(context@).insert(context@, handle)
                =~= cache_map(entries0).insert(context@, handle));
        }
    }
}

proof fn lemma_cache_map_remove(entries: Seq<CacheEntry>, i: int)
    requires
        distinct_contexts(entries),
        0 <= i < entries.len(),
    ensures
        cache_map(entries.remove(i)) == cache_map(entries).remove(entries[i].context@),
    decreases entries.len(),
{
    let k = entries[i].context@;
    let m0 = cache_map(entries.drop_last());
    if i == entries.len() - 1 {
        assert(entries.remove(i) =~= entries.drop_last());
        lemma_cache_map_domain(entries.drop_last());
        assert(!m0.contains_key(k));
        assert(m0.insert(k, entries.last().handle).remove(k) =~= m0);
    } else {
        let last = entries.last();
        assert(entries.remove(i).drop_last() =~= entries.drop_last().remove(i));
        assert(entries.remove(i).last() == last);
        assert(distinct_contexts(entries.drop_last()));
        lemma_cache_map_remove(entries.drop_last(), i);
        assert(entries.drop_last()[i] == entries[i]);
        assert(last.context@ != k);
        assert(cache_map(entries.remove(i)) == m0.remove(k).insert(last.context@, last.handle));
        assert(m0.remove(k).insert(last.context@, last.handle) =~= m0.insert(
            last.context@,
            last.handle,
        ).remove(k));
    }
}

} // verus!
