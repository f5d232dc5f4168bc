//! The orchestrator's decisions: given a debounced filesystem change or
//! a pod-readiness transition, which cluster queries to make and which
//! copy operations to issue. The surrounding program performs the
//! queries and copies; these functions only plan them, so the whole
//! fan-out is a function of the rules and the event, never of any
//! copy's outcome.

use vstd::prelude::*;

use crate::config::WatcherConfigView;
use crate::router::SyncRouter;
use crate::router::match_pairs;
use crate::router::pairs_match;
use crate::router::selector_bucket;
use crate::router::src_bucket;
use crate::syncer::CopyOutcome;
use crate::syncer::CopyOutcomeView;

verus! {

/// One copy operation to perform: which context, namespace and pod to
/// target, and which local source to copy to which remote destination.
pub struct CopyOp {
    pub kube_context: String,
    pub namespace: String,
    pub pod: String,
    pub src: String,
    pub dest: String,
}

/// View of a copy operation.
#[verifier::ext_equal]
pub ghost struct CopyOpView {
    pub kube_context: Seq<char>,
    pub namespace: Seq<char>,
    pub pod: Seq<char>,
    pub src: Seq<char>,
    pub dest: Seq<char>,
}

impl View for CopyOp {
    type V = CopyOpView;

    open spec fn view(&self) -> CopyOpView {
        CopyOpView {
            kube_context: self.kube_context@,
            namespace: self.namespace@,
            pod: self.pod@,
            src: self.src@,
            dest: self.dest@,
        }
    }
}

impl Clone for CopyOp {
    fn clone(&self) -> (r: Self)
        ensures
            r == *self,
    {
        CopyOp {
            kube_context: self.kube_context.clone(),
            namespace: self.namespace.clone(),
            pod: self.pod.clone(),
            src: self.src.clone(),
            dest: self.dest.clone(),
        }
    }
}

/// One readiness query the orchestrator needs answered before it can
/// fan out a filesystem change: which ready pods currently match this
/// context, namespace and selector.
pub struct ReadyQuery {
    pub kube_context: String,
    pub namespace: String,
    pub selector: String,
}

/// View of a readiness query.
#[verifier::ext_equal]
pub ghost struct ReadyQueryView {
    pub kube_context: Seq<char>,
    pub namespace: Seq<char>,
    pub selector: Seq<char>,
}

impl View for ReadyQuery {
    type V = ReadyQueryView;

    open spec fn view(&self) -> ReadyQueryView {
        ReadyQueryView {
            kube_context: self.kube_context@,
            namespace: self.namespace@,
            selector: self.selector@,
        }
    }
}

/// The rule views at the given bucket indices, in bucket order.
pub open spec fn rules_at(rv: Seq<WatcherConfigView>, bucket: Seq<int>) -> Seq<WatcherConfigView> {
    bucket.map_values(|i: int| rv[i])
}

/// The queries one rule asks for: one per declared selector, in order,
/// against the rule's own context and namespace.
pub open spec fn rule_queries(r: WatcherConfigView) -> Seq<ReadyQueryView> {
    Seq::new(
        r.label_selectors.len(),
        |j: int|
            ReadyQueryView {
                kube_context: r.kube_context,
                namespace: r.namespace,
                selector: r.label_selectors[j],
            },
    )
}

/// The queries the first `n` rules ask for, concatenated in rule order.
pub open spec fn fs_queries_upto(rs: Seq<WatcherConfigView>, n: int) -> Seq<ReadyQueryView>
    decreases n,
{
    if n <= 0 {
        Seq::empty()
    } else {
        fs_queries_upto(rs, n - 1) + rule_queries(rs[n - 1])
    }
}

/// All queries the given rules ask for.
pub open spec fn fs_queries(rs: Seq<WatcherConfigView>) -> Seq<ReadyQueryView> {
    fs_queries_upto(rs, rs.len() as int)
}

/// The copy operations one rule issues for a freshly ready pod: one per
/// declared path entry, in order. The event's own context and namespace
/// are targeted, and the pod receives the complete current state of
/// every path the rule declares.
pub open spec fn rule_copy_ops(
    r: WatcherConfigView,
    ctx: Seq<char>,
    ns: Seq<char>,
    pod: Seq<char>,
) -> Seq<CopyOpView> {
    Seq::new(
        r.paths.len(),
        |j: int|
            CopyOpView {
                kube_context: ctx,
                namespace: ns,
                pod: pod,
                src: r.paths[j].src,
                dest: r.paths[j].dest,
            },
    )
}

/// The pod-ready fan-out of the first `n` rules, in rule order.
pub open spec fn pod_ready_ops_upto(
    rs: Seq<WatcherConfigView>,
    ctx: Seq<char>,
    ns: Seq<char>,
    pod: Seq<char>,
    n: int,
) -> Seq<CopyOpView>
    decreases n,
{
    if n <= 0 {
        Seq::empty()
    } else {
        pod_ready_ops_upto(rs, ctx, ns, pod, n - 1) + rule_copy_ops(rs[n - 1], ctx, ns, pod)
    }
}

/// The complete pod-ready fan-out of the given rules.
pub open spec fn pod_ready_ops(
    rs: Seq<WatcherConfigView>,
    ctx: Seq<char>,
    ns: Seq<char>,
    pod: Seq<char>,
) -> Seq<CopyOpView> {
    pod_ready_ops_upto(rs, ctx, ns, pod, rs.len() as int)
}

/// The copy operation for one join pair and one pod: the matched rule's
/// own context and namespace are targeted, and the matched path entry
/// is copied.
pub open spec fn pair_op(
    rv: Seq<WatcherConfigView>,
    pr: (int, int),
    pod: Seq<char>,
) -> CopyOpView {
    CopyOpView {
        kube_context: rv[pr.0].kube_context,
        namespace: rv[pr.0].namespace,
        pod: pod,
        src: rv[pr.0].paths[pr.1].src,
        dest: rv[pr.0].paths[pr.1].dest,
    }
}

/// The copy operations for one pod: one per join pair, in join order.
pub open spec fn pairs_ops(
    rv: Seq<WatcherConfigView>,
    pairs: Seq<(int, int)>,
    pod: Seq<char>,
) -> Seq<CopyOpView> {
    Seq::new(pairs.len(), |k: int| pair_op(rv, pairs[k], pod))
}

/// The filesystem-change fan-out over the first `n` ready pods: each
/// pod receives the same per-pod operations, in pod order.
pub open spec fn fs_fan_out_upto(
    rv: Seq<WatcherConfigView>,
    pairs: Seq<(int, int)>,
    pods: Seq<Seq<char>>,
    n: int,
) -> Seq<CopyOpView>
    decreases n,
{
    if n <= 0 {
        Seq::empty()
    } else {
        fs_fan_out_upto(rv, pairs, pods, n - 1) + pairs_ops(rv, pairs, pods[n - 1])
    }
}

/// The complete filesystem-change fan-out over the given ready pods.
pub open spec fn fs_fan_out(
    rv: Seq<WatcherConfigView>,
    pairs: Seq<(int, int)>,
    pods: Seq<Seq<char>>,
) -> Seq<CopyOpView> {
    fs_fan_out_upto(rv, pairs, pods, pods.len() as int)
}

/// Plan the readiness queries for a debounced change of `src`: for
/// every rule declaring `src` as a source, one query per selector the
/// rule declares, against the rule's context and namespace.
pub fn queries_for_fs_change(router: &SyncRouter, src: &str) -> (r: Vec<ReadyQuery>)
    ensures
        r@.map_values(|q: ReadyQuery| q@) == fs_queries(
            rules_at(router.rules_view(), src_bucket(router.rules_view(), src@)),
        ),
{
    let configs = router.configs_by_src(src);
    let ghost rv = router.rules_view();
    let ghost cviews = configs@.map_values(|c: crate::config::WatcherConfig| c@);
    proof {
        assert(cviews =~= rules_at(rv, src_bucket(rv, src@)));
    }
    let mut r: Vec<ReadyQuery> = Vec::new();
    let mut i: usize = 0;
    while i < configs.len()
        invariant
            i <= configs@.len(),
            cviews == configs@.map_values(|c: crate::config::WatcherConfig| c@),
            r@.map_values(|q: ReadyQuery| q@) == fs_queries_upto(cviews, i as int),
        decreases configs@.len() - i,
    {
        let config = &configs[i];
        proof {
            assert(config@ == cviews[i as int]);
        }
        let mut j: usize = 0;
        while j < config.label_selectors.len()
            invariant
                j <= config.label_selectors@.len(),
                i < configs@.len(),
                cviews == configs@.map_values(|c: crate::config::WatcherConfig| c@),
                config@ == cviews[i as int],
                r@.map_values(|q: ReadyQuery| q@) == fs_queries_upto(cviews, i as int)
                    + rule_queries(cviews[i as int]).subrange(0, j as int),
            decreases config.label_selectors@.len() - j,
        {
            let ghost r_before = r@;
            r.push(
                ReadyQuery {
                    kube_context: config.kube_context.clone(),
                    namespace: config.namespace.clone(),
                    selector: config.label_selectors[j].clone(),
                },
            );
            proof {
                let qs = rule_queries(cviews[i as int]);
                assert(config@.label_selectors[j as int] == config.label_selectors@[j as int]@);
                assert(r@.last()@ == qs[j as int]);
                assert(qs.subrange(0, j + 1 as int) =~= qs.subrange(0, j as int).push(
                    qs[j as int],
                ));
                assert(r@.map_values(|q: ReadyQuery| q@) =~= r_before.map_values(
                    |q: ReadyQuery| q@,
                ).push(r@.last()@));
                assert(fs_queries_upto(cviews, i as int) + qs.subrange(0, j + 1 as int)
                    =~= (fs_queries_upto(cviews, i as int) + qs.subrange(0, j as int)).push(
                    qs[j as int],
                ));
            }
            j += 1;
        }
        proof {
            let qs = rule_queries(cviews[i as int]);
            assert(qs.subrange(0, config.label_selectors@.len() as int) =~= qs);
            assert(fs_queries_upto(cviews, i + 1 as int) == fs_queries_upto(cviews, i as int)
                + qs);
        }
        i += 1;
    }
    proof {
        assert(fs_queries(cviews) == fs_queries_upto(cviews, cviews.len() as int));
    }
    r
}

/// Plan the fan-out for a pod that just became ready under `selector`:
/// for every rule declaring that selector, one copy operation per path
/// entry the rule declares, to the event's context, namespace and pod.
pub fn copies_for_pod_ready(
    router: &SyncRouter,
    ctx: &str,
    ns: &str,
    selector: &str,
    pod: &str,
) -> (r: Vec<CopyOp>)
    ensures
        r@.map_values(|o: CopyOp| o@) == pod_ready_ops(
            rules_at(router.rules_view(), selector_bucket(router.rules_view(), selector@)),
            ctx@,
            ns@,
            pod@,
        ),
{
    let configs = router.configs_by_selector(selector);
    let ghost rv = router.rules_view();
    let ghost cviews = configs@.map_values(|c: crate::config::WatcherConfig| c@);
    proof {
        assert(cviews =~= rules_at(rv, selector_bucket(rv, selector@)));
    }
    let ctx_s: String = ctx.to_owned();
    let ns_s: String = ns.to_owned();
    let pod_s: String = pod.to_owned();
    let mut r: Vec<CopyOp> = Vec::new();
    let mut i: usize = 0;
    while i < configs.len()
        invariant
            i <= configs@.len(),
            ctx_s@ == ctx@,
            ns_s@ == ns@,
            pod_s@ == pod@,
            cviews == configs@.map_values(|c: crate::config::WatcherConfig| c@),
            r@.map_values(|o: CopyOp| o@) == pod_ready_ops_upto(cviews, ctx@, ns@, pod@, i as int),
        decreases configs@.len() - i,
    {
        let config = &configs[i];
        proof {
            assert(config@ == cviews[i as int]);
        }
        let mut j: usize = 0;
        while j < config.paths.len()
            invariant
                j <= config.paths@.len(),
                i < configs@.len(),
                ctx_s@ == ctx@,
                ns_s@ == ns@,
                pod_s@ == pod@,
                cviews == configs@.map_values(|c: crate::config::WatcherConfig| c@),
                config@ == cviews[i as int],
                r@.map_values(|o: CopyOp| o@) == pod_ready_ops_upto(cviews, ctx@, ns@, pod@, i as int)
                    + rule_copy_ops(cviews[i as int], ctx@, ns@, pod@).subrange(0, j as int),
            decreases config.paths@.len() - j,
        {
            let ghost r_before = r@;
            let path = &config.paths[j];
            r.push(
                CopyOp {
                    kube_context: ctx_s.clone(),
                    namespace: ns_s.clone(),
                    pod: pod_s.clone(),
                    src: path.src.clone(),
                    dest: path.dest.clone(),
                },
            );
            proof {
                let ops = rule_copy_ops(cviews[i as int], ctx@, ns@, pod@);
                assert(config@.paths[j as int] == config.paths@[j as int]@);
                assert(r@.last()@ == ops[j as int]);
                assert(ops.subrange(0, j + 1 as int) =~= ops.subrange(0, j as int).push(
                    ops[j as int],
                ));
                assert(r@.map_values(|o: CopyOp| o@) =~= r_before.map_values(
                    |o: CopyOp| o@,
                ).push(r@.last()@));
                assert(pod_ready_ops_upto(cviews, ctx@, ns@, pod@, i as int) + ops.subrange(
                    0,
                    j + 1 as int,
                ) =~= (pod_ready_ops_upto(cviews, ctx@, ns@, pod@, i as int) + ops.subrange(
                    0,
                    j as int,
                )).push(ops[j as int]));
            }
            j += 1;
        }
        proof {
            let ops = rule_copy_ops(cviews[i as int], ctx@, ns@, pod@);
            assert(ops.subrange(0, config.paths@.len() as int) =~= ops);
            assert(pod_ready_ops_upto(cviews, ctx@, ns@, pod@, i + 1 as int) == pod_ready_ops_upto(
                cviews,
                ctx@,
                ns@,
                pod@,
                i as int,
            ) + ops);
        }
        i += 1;
    }
    r
}

/// Plan the fan-out for a debounced change of `src` under `selector`,
/// once the ready pods are known: every ready pod receives one copy
/// operation per join pair, in join order, targeting the matched rule's
/// own context and namespace.
pub fn copies_for_ready_pods(
    router: &SyncRouter,
    src: &str,
    selector: &str,
    pods: &Vec<String>,
) -> (r: Vec<CopyOp>)
    ensures
        r@.map_values(|o: CopyOp| o@) == fs_fan_out(
            router.rules_view(),
            match_pairs(router.rules_view(), src@, selector@),
            pods@.map_values(|s: String| s@),
        ),
{
    let matched = router.match_configs(src, selector);
    let ghost rv = router.rules_view();
    let ghost pairs = match_pairs(rv, src@, selector@);
    let ghost podv = pods@.map_values(|s: String| s@);
    let mut r: Vec<CopyOp> = Vec::new();
    let mut i: usize = 0;
    while i < pods.len()
        invariant
            i <= pods@.len(),
            podv == pods@.map_values(|s: String| s@),
            pairs == match_pairs(rv, src@, selector@),
            pairs_match(rv, pairs, matched@),
            r@.map_values(|o: CopyOp| o@) == fs_fan_out_upto(rv, pairs, podv, i as int),
        decreases pods@.len() - i,
    {
        let pod = &pods[i];
        proof {
            assert(pod@ == podv[i as int]);
        }
        let mut k: usize = 0;
        while k < matched.len()
            invariant
                k <= matched@.len(),
                i < pods@.len(),
                podv == pods@.map_values(|s: String| s@),
                pairs == match_pairs(rv, src@, selector@),
                pairs_match(rv, pairs, matched@),
                pod@ == podv[i as int],
                r@.map_values(|o: CopyOp| o@) == fs_fan_out_upto(rv, pairs, podv, i as int)
                    + pairs_ops(rv, pairs, podv[i as int]).subrange(0, k as int),
            decreases matched@.len() - k,
        {
            let ghost r_before = r@;
            let pair = &matched[k];
            r.push(
                CopyOp {
                    kube_context: pair.0.kube_context.clone(),
                    namespace: pair.0.namespace.clone(),
                    pod: pod.clone(),
                    src: pair.1.src.clone(),
                    dest: pair.1.dest.clone(),
                },
            );
            proof {
                let ops = pairs_ops(rv, pairs, podv[i as int]);
                assert(r@.last()@ == ops[k as int]);
                assert(ops.subrange(0, k + 1 as int) =~= ops.subrange(0, k as int).push(
                    ops[k as int],
                ));
                assert(r@.map_values(|o: CopyOp| o@) =~= r_before.map_values(
                    |o: CopyOp| o@,
                ).push(r@.last()@));
                assert(fs_fan_out_upto(rv, pairs, podv, i as int) + ops.subrange(0, k + 1 as int)
                    =~= (fs_fan_out_upto(rv, pairs, podv, i as int) + ops.subrange(0, k as int)).push(
                    ops[k as int],
                ));
            }
            k += 1;
        }
        proof {
            let ops = pairs_ops(rv, pairs, podv[i as int]);
            assert(ops.subrange(0, matched@.len() as int) =~= ops);
            assert(fs_fan_out_upto(rv, pairs, podv, i + 1 as int) == fs_fan_out_upto(
                rv,
                pairs,
                podv,
                i as int,
            ) + ops);
        }
        i += 1;
    }
    r
}

/// The pod-ready fan-out distributes over rule lists: every rule's
/// block stands in the result unchanged, so a rule with k path entries
/// contributes exactly k copy operations, one per path, whatever other
/// rules the selector matched.
pub proof fn lemma_pod_ready_ops_concat(
    rs1: Seq<WatcherConfigView>,
    rs2: Seq<WatcherConfigView>,
    ctx: Seq<char>,
    ns: Seq<char>,
    pod: Seq<char>,
)
    ensures
        pod_ready_ops(rs1 + rs2, ctx, ns, pod) == pod_ready_ops(rs1, ctx, ns, pod)
            + pod_ready_ops(rs2, ctx, ns, pod),
    decreases rs2.len(),
{
    let rs = rs1 + rs2;
    if rs2.len() == 0 {
        assert(rs =~= rs1);
        assert(pod_ready_ops(rs2, ctx, ns, pod) == Seq::<CopyOpView>::empty());
        assert(pod_ready_ops(rs1, ctx, ns, pod) + Seq::<CopyOpView>::empty() =~= pod_ready_ops(
            rs1,
            ctx,
            ns,
            pod,
        ));
    } else {
        lemma_pod_ready_ops_concat(rs1, rs2.drop_last(), ctx, ns, pod);
        assert(rs1 + rs2.drop_last() =~= rs.drop_last());
        assert(pod_ready_ops_upto(rs, ctx, ns, pod, rs.len() as int) == pod_ready_ops_upto(
            rs,
            ctx,
            ns,
            pod,
            rs.len() - 1,
        ) + rule_copy_ops(rs[rs.len() - 1], ctx, ns, pod));
        lemma_pod_ready_ops_upto_prefix(rs.drop_last(), rs, ctx, ns, pod, rs.len() - 1);
        assert(rs[rs.len() - 1] == rs2.last());
        assert(pod_ready_ops_upto(rs2, ctx, ns, pod, rs2.len() as int) == pod_ready_ops_upto(
            rs2,
            ctx,
            ns,
            pod,
            rs2.len() - 1,
        ) + rule_copy_ops(rs2.last(), ctx, ns, pod));
        lemma_pod_ready_ops_upto_prefix(rs2.drop_last(), rs2, ctx, ns, pod, rs2.len() - 1);
        assert((pod_ready_ops(rs1, ctx, ns, pod) + pod_ready_ops(rs2.drop_last(), ctx, ns, pod))
            + rule_copy_ops(rs2.last(), ctx, ns, pod) =~= pod_ready_ops(rs1, ctx, ns, pod) + (
        pod_ready_ops(rs2.drop_last(), ctx, ns, pod) + rule_copy_ops(rs2.last(), ctx, ns, pod)));
    }
}

/// The fan-out over a prefix only reads the prefix: two rule lists that
/// agree on their first `n` rules plan the same first blocks.
proof fn lemma_pod_ready_ops_upto_prefix(
    rs1: Seq<WatcherConfigView>,
    rs2: Seq<WatcherConfigView>,
    ctx: Seq<char>,
    ns: Seq<char>,
    pod: Seq<char>,
    n: int,
)
    requires
        n <= rs1.len(),
        n <= rs2.len(),
        forall|i: int| 0 <= i < n ==> rs1[i] == rs2[i],
    ensures
        pod_ready_ops_upto(rs1, ctx, ns, pod, n) == pod_ready_ops_upto(rs2, ctx, ns, pod, n),
    decreases n,
{
    if n <= 0 {
    } else {
        lemma_pod_ready_ops_upto_prefix(rs1, rs2, ctx, ns, pod, n - 1);
    }
}

/// A single rule's pod-ready fan-out is exactly its own block: one copy
/// operation per declared path entry, in order.
pub proof fn lemma_pod_ready_ops_single(
    r: WatcherConfigView,
    ctx: Seq<char>,
    ns: Seq<char>,
    pod: Seq<char>,
)
    ensures
        pod_ready_ops(seq![r], ctx, ns, pod) == rule_copy_ops(r, ctx, ns, pod),
        rule_copy_ops(r, ctx, ns, pod).len() == r.paths.len(),
        forall|j: int|
            0 <= j < r.paths.len() ==> rule_copy_ops(r, ctx, ns, pod)[j] == (CopyOpView {
                kube_context: ctx,
                namespace: ns,
                pod: pod,
                src: r.paths[j].src,
                dest: r.paths[j].dest,
            }),
{
    assert(pod_ready_ops_upto(seq![r], ctx, ns, pod, 0) == Seq::<CopyOpView>::empty());
    assert(pod_ready_ops(seq![r], ctx, ns, pod) =~= rule_copy_ops(r, ctx, ns, pod));
}

/// The filesystem-change fan-out issues exactly one operation per
/// (ready pod, join pair): its length is the product, and the operation
/// for pod `i` and pair `k` stands at position `i * pairs.len() + k`.
pub proof fn lemma_fs_fan_out_exact(
    rv: Seq<WatcherConfigView>,
    pairs: Seq<(int, int)>,
    pods: Seq<Seq<char>>,
    n: int,
)
    requires
        0 <= n <= pods.len(),
    ensures
        fs_fan_out_upto(rv, pairs, pods, n).len() == n * pairs.len(),
        forall|i: int, k: int|
            0 <= i < n && 0 <= k < pairs.len() ==> fs_fan_out_upto(rv, pairs, pods, n)[i
                * pairs.len() + k] == pair_op(rv, pairs[k], pods[i]),
    decreases n,
{
    if n == 0 {
    } else {
        lemma_fs_fan_out_exact(rv, pairs, pods, n - 1);
        let whole = fs_fan_out_upto(rv, pairs, pods, n);
        let prefix = fs_fan_out_upto(rv, pairs, pods, n - 1);
        let block = pairs_ops(rv, pairs, pods[n - 1]);
        assert(whole == prefix + block);
        assert(prefix.len() == (n - 1) * pairs.len());
        assert(n * pairs.len() == (n - 1) * pairs.len() + pairs.len()) by (nonlinear_arith);
        assert forall|i: int, k: int|
            0 <= i < n && 0 <= k < pairs.len() implies whole[i * pairs.len() + k] == pair_op(
            rv,
            pairs[k],
            pods[i],
        ) by {
            if i < n - 1 {
                assert(i * pairs.len() + k < (n - 1) * pairs.len()) by (nonlinear_arith)
                    requires
                        0 <= i < n - 1,
                        0 <= k < pairs.len(),
                ;
                assert(0 <= i * pairs.len() + k) by (nonlinear_arith)
                    requires
                        0 <= i,
                        0 <= k,
                ;
                assert(whole[i * pairs.len() + k] == prefix[i * pairs.len() + k]);
            } else {
                assert(i == n - 1);
                assert(i * pairs.len() + k == prefix.len() + k);
                assert(whole[prefix.len() + k] == block[k]);
            }
        }
    }
}

/// One in-flight fan-out: the planned operations, how many have been
/// attempted, and each attempt's outcome. Recording an outcome always
/// advances to the next operation, whether the copy succeeded or
/// failed, so one failure never prevents the remaining copies of the
/// same fan-out from being attempted, and every outcome stays
/// independently observable.
pub struct FanOut {
    ops: Vec<CopyOp>,
    pos: usize,
    outcomes: Vec<CopyOutcome>,
}

impl FanOut {
    /// The planned operations of this fan-out.
    pub closed spec fn ops_view(&self) -> Seq<CopyOpView> {
        self.ops@.map_values(|o: CopyOp| o@)
    }

    /// How many operations have been attempted so far.
    pub closed spec fn position(&self) -> int {
        self.pos as int
    }

    /// The outcomes recorded so far, one per attempted operation.
    pub closed spec fn outcomes_view(&self) -> Seq<CopyOutcomeView> {
        self.outcomes@.map_values(|o: CopyOutcome| o@)
    }

    pub closed spec fn wf(&self) -> bool {
        self.pos == self.outcomes@.len() && self.pos <= self.ops@.len()
    }

    pub fn begin(ops: Vec<CopyOp>) -> (f: FanOut)
        ensures
            f.wf(),
            f.ops_view() == ops@.map_values(|o: CopyOp| o@),
            f.position() == 0,
            f.outcomes_view() == Seq::<CopyOutcomeView>::empty(),
    {
        let f = FanOut { ops, pos: 0, outcomes: Vec::new() };
        proof {
            assert(f.outcomes_view() =~= Seq::<CopyOutcomeView>::empty());
        }
        f
    }

    /// The next operation to attempt, or nothing once every planned
    /// operation has been attempted.
    pub fn next_op(&self) -> (r: Option<&CopyOp>)
        requires
            self.wf(),
        ensures
            match r {
                Some(op) => self.position() < self.ops_view().len() && op@
                    == self.ops_view()[self.position()],
                None => self.position() == self.ops_view().len(),
            },
    {
        if self.pos < self.ops.len() {
            Some(&self.ops[self.pos])
        } else {
            None
        }
    }

    /// Record the outcome of the operation just attempted. The fan-out
    /// advances for failures exactly as for successes: the planned
    /// operations are untouched and the next one is up.
    pub fn record(&mut self, outcome: CopyOutcome)
        requires
            old(self).wf(),
            old(self).position() < old(self).ops_view().len(),
        ensures
            final(self).wf(),
            final(self).ops_view() == old(self).ops_view(),
            final(self).position() == old(self).position() + 1,
            final(self).outcomes_view() == old(self).outcomes_view().push(outcome@),
    {
        let ghost before = self.outcomes@;
        let n: usize = self.ops.len();
        assert(self.pos < n);
        self.outcomes.push(outcome);
        self.pos = self.pos + 1;
        proof {
            assert(self.outcomes_view() =~= before.map_values(|o: CopyOutcome| o@).push(
                self.outcomes@.last()@,
            ));
        }
    }

    /// Has every planned operation been attempted?
    pub fn is_done(&self) -> (b: bool)
        requires
            self.wf(),
        ensures
            b == (self.position() == self.ops_view().len()),
    {
        self.pos == self.ops.len()
    }

    /// Hand back all recorded outcomes, in operation order.
    pub fn into_outcomes(self) -> (r: Vec<CopyOutcome>)
        ensures
            r@.map_values(|o: CopyOutcome| o@) == self.outcomes_view(),
    {
        self.outcomes
    }
}

} // verus!
