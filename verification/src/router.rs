//! The router: given the immutable rule list, answers which rules a
//! source path or a label selector matches, and computes the join used
//! when a filesystem change must be paired with the path entries that
//! actually declared the changed source.
//!
//! Rule identity is positional: a rule is identified by its index in the
//! declaration order, so two structurally equal rules declared twice stay
//! distinct, as the matching semantics require.

use vstd::prelude::*;

use crate::config::PathConfig;
use crate::config::WatcherConfig;
use crate::config::WatcherConfigView;
use crate::config::config_has_selector;
use crate::config::config_has_src;
use crate::config::rule_has_selector;
use crate::config::rule_has_src;

verus! {

/// Indices (in declaration order) of the rules among the first `n` that
/// declare a path entry with source `p`.
pub open spec fn src_bucket_upto(rules: Seq<WatcherConfigView>, p: Seq<char>, n: int) -> Seq<int>
    decreases n,
{
    if n <= 0 {
        Seq::empty()
    } else if rule_has_src(rules[n - 1], p) {
        src_bucket_upto(rules, p, n - 1).push(n - 1)
    } else {
        src_bucket_upto(rules, p, n - 1)
    }
}

/// Indices of all rules that declare a path entry with source `p`.
pub open spec fn src_bucket(rules: Seq<WatcherConfigView>, p: Seq<char>) -> Seq<int> {
    src_bucket_upto(rules, p, rules.len() as int)
}

/// Indices of the rules among the first `n` that declare selector `s`.
pub open spec fn selector_bucket_upto(
    rules: Seq<WatcherConfigView>,
    s: Seq<char>,
    n: int,
) -> Seq<int>
    decreases n,
{
    if n <= 0 {
        Seq::empty()
    } else if rule_has_selector(rules[n - 1], s) {
        selector_bucket_upto(rules, s, n - 1).push(n - 1)
    } else {
        selector_bucket_upto(rules, s, n - 1)
    }
}

/// Indices of all rules that declare selector `s`.
pub open spec fn selector_bucket(rules: Seq<WatcherConfigView>, s: Seq<char>) -> Seq<int> {
    selector_bucket_upto(rules, s, rules.len() as int)
}

/// The (rule index, path index) pairs contributed by rule `i` (with view
/// `r`) for changed source `p`, over the first `m` of its path entries.
pub open spec fn rule_pairs_upto(
    r: WatcherConfigView,
    i: int,
    p: Seq<char>,
    m: int,
) -> Seq<(int, int)>
    decreases m,
{
    if m <= 0 {
        Seq::empty()
    } else if r.paths[m - 1].src == p {
        rule_pairs_upto(r, i, p, m - 1).push((i, m - 1))
    } else {
        rule_pairs_upto(r, i, p, m - 1)
    }
}

/// All (rule index, path index) pairs contributed by rule `i` for `p`.
pub open spec fn rule_pairs(r: WatcherConfigView, i: int, p: Seq<char>) -> Seq<(int, int)> {
    rule_pairs_upto(r, i, p, r.paths.len() as int)
}

/// The join over the first `n` rules: a rule contributes iff it is in
/// both the source bucket of `p` and the selector bucket of `s`, and it
/// contributes one pair per path entry whose source is `p`.
pub open spec fn match_pairs_upto(
    rules: Seq<WatcherConfigView>,
    p: Seq<char>,
    s: Seq<char>,
    n: int,
) -> Seq<(int, int)>
    decreases n,
{
    if n <= 0 {
        Seq::empty()
    } else {
        let rest = match_pairs_upto(rules, p, s, n - 1);
        if rule_has_src(rules[n - 1], p) && rule_has_selector(rules[n - 1], s) {
            rest + rule_pairs(rules[n - 1], n - 1, p)
        } else {
            rest
        }
    }
}

/// The full join for changed source `p` under selector `s`.
pub open spec fn match_pairs(rules: Seq<WatcherConfigView>, p: Seq<char>, s: Seq<char>) -> Seq<
    (int, int),
> {
    match_pairs_upto(rules, p, s, rules.len() as int)
}

/// `out` lists exactly the rules at the bucket's indices, in bucket order.
pub open spec fn bucket_match(
    rv: Seq<WatcherConfigView>,
    bucket: Seq<int>,
    out: Seq<WatcherConfig>,
) -> bool {
    &&& out.len() == bucket.len()
    &&& forall|k: int|
        #![all_triggers]
        0 <= k < bucket.len() ==> 0 <= bucket[k] < rv.len() && out[k]@ == rv[bucket[k]]
}

/// `out` lists exactly the (rule, path entry) values named by `pairs`,
/// in pair order.
pub open spec fn pairs_match(
    rv: Seq<WatcherConfigView>,
    pairs: Seq<(int, int)>,
    out: Seq<(WatcherConfig, PathConfig)>,
) -> bool {
    &&& out.len() == pairs.len()
    &&& forall|k: int|
        #![all_triggers]
        0 <= k < pairs.len() ==> {
            &&& 0 <= pairs[k].0 < rv.len()
            &&& 0 <= pairs[k].1 < rv[pairs[k].0].paths.len()
            &&& out[k].0@ == rv[pairs[k].0]
            &&& out[k].1@ == rv[pairs[k].0].paths[pairs[k].1]
        }
}

proof fn lemma_push_contains<A>(s: Seq<A>, x: A, e: A)
    ensures
        s.push(x).contains(e) <==> (s.contains(e) || e == x),
{
    if s.push(x).contains(e) {
        let k = choose|k: int| 0 <= k < s.push(x).len() && s.push(x)[k] == e;
        if k < s.len() {
            assert(s[k] == e);
        }
    }
    if s.contains(e) {
        let k = choose|k: int| 0 <= k < s.len() && s[k] == e;
        assert(s.push(x)[k] == e);
    }
    if e == x {
        assert(s.push(x)[s.len() as int] == e);
    }
}

proof fn lemma_add_contains<A>(a: Seq<A>, b: Seq<A>, e: A)
    ensures
        (a + b).contains(e) <==> (a.contains(e) || b.contains(e)),
{
    if (a + b).contains(e) {
        let k = choose|k: int| 0 <= k < (a + b).len() && (a + b)[k] == e;
        if k < a.len() {
            assert(a[k] == e);
        } else {
            assert(b[k - a.len()] == e);
        }
    }
    if a.contains(e) {
        let k = choose|k: int| 0 <= k < a.len() && a[k] == e;
        assert((a + b)[k] == e);
    }
    if b.contains(e) {
        let k = choose|k: int| 0 <= k < b.len() && b[k] == e;
        assert((a + b)[k + a.len()] == e);
    }
}

proof fn lemma_src_bucket_upto_exact(rules: Seq<WatcherConfigView>, p: Seq<char>, n: int)
    ensures
        forall|i: int|
            #[trigger] src_bucket_upto(rules, p, n).contains(i) <==> (0 <= i < n && rule_has_src(
                rules[i],
                p,
            )),
    decreases n,
{
    if n <= 0 {
        assert(src_bucket_upto(rules, p, n) =~= Seq::<int>::empty());
    } else {
        lemma_src_bucket_upto_exact(rules, p, n - 1);
        if rule_has_src(rules[n - 1], p) {
            assert(src_bucket_upto(rules, p, n) == src_bucket_upto(rules, p, n - 1).push(n - 1));
            assert forall|i: int|
                #[trigger] src_bucket_upto(rules, p, n).contains(i) <==> (0 <= i < n
                    && rule_has_src(rules[i], p)) by {
                lemma_push_contains(src_bucket_upto(rules, p, n - 1), n - 1, i);
            }
        } else {
            assert(src_bucket_upto(rules, p, n) == src_bucket_upto(rules, p, n - 1));
        }
    }
}

/// The source bucket holds exactly the indices of the rules that declare
/// a path entry whose source is `p`, and no others.
pub proof fn lemma_src_bucket_exact(rules: Seq<WatcherConfigView>, p: Seq<char>)
    ensures
        forall|i: int|
            #[trigger] src_bucket(rules, p).contains(i) <==> (0 <= i < rules.len()
                && rule_has_src(rules[i], p)),
{
    lemma_src_bucket_upto_exact(rules, p, rules.len() as int);
}

proof fn lemma_selector_bucket_upto_exact(rules: Seq<WatcherConfigView>, s: Seq<char>, n: int)
    ensures
        forall|i: int|
            #[trigger] selector_bucket_upto(rules, s, n).contains(i) <==> (0 <= i < n
                && rule_has_selector(rules[i], s)),
    decreases n,
{
    if n <= 0 {
        assert(selector_bucket_upto(rules, s, n) =~= Seq::<int>::empty());
    } else {
        lemma_selector_bucket_upto_exact(rules, s, n - 1);
        if rule_has_selector(rules[n - 1], s) {
            assert(selector_bucket_upto(rules, s, n) == selector_bucket_upto(rules, s, n - 1).push(
                n - 1,
            ));
            assert forall|i: int|
                #[trigger] selector_bucket_upto(rules, s, n).contains(i) <==> (0 <= i < n
                    && rule_has_selector(rules[i], s)) by {
                lemma_push_contains(selector_bucket_upto(rules, s, n - 1), n - 1, i);
            }
        } else {
            assert(selector_bucket_upto(rules, s, n) == selector_bucket_upto(rules, s, n - 1));
        }
    }
}

/// The selector bucket holds exactly the indices of the rules that
/// declare selector `s`, and no others.
pub proof fn lemma_selector_bucket_exact(rules: Seq<WatcherConfigView>, s: Seq<char>)
    ensures
        forall|i: int|
            #[trigger] selector_bucket(rules, s).contains(i) <==> (0 <= i < rules.len()
                && rule_has_selector(rules[i], s)),
{
    lemma_selector_bucket_upto_exact(rules, s, rules.len() as int);
}

proof fn lemma_rule_pairs_upto_exact(r: WatcherConfigView, ri: int, p: Seq<char>, m: int)
    ensures
        forall|i: int, j: int|
            #[trigger] rule_pairs_upto(r, ri, p, m).contains((i, j)) <==> (i == ri && 0 <= j < m
                && r.paths[j].src == p),
    decreases m,
{
    if m <= 0 {
        assert(rule_pairs_upto(r, ri, p, m) =~= Seq::<(int, int)>::empty());
    } else {
        lemma_rule_pairs_upto_exact(r, ri, p, m - 1);
        if r.paths[m - 1].src == p {
            assert(rule_pairs_upto(r, ri, p, m) == rule_pairs_upto(r, ri, p, m - 1).push(
                (ri, m - 1),
            ));
            assert forall|i: int, j: int|
                #[trigger] rule_pairs_upto(r, ri, p, m).contains((i, j)) <==> (i == ri && 0 <= j < m
                    && r.paths[j].src == p) by {
                lemma_push_contains(rule_pairs_upto(r, ri, p, m - 1), (ri, m - 1), (i, j));
            }
        } else {
            assert(rule_pairs_upto(r, ri, p, m) == rule_pairs_upto(r, ri, p, m - 1));
        }
    }
}

proof fn lemma_match_pairs_upto_exact(rules: Seq<WatcherConfigView>, p: Seq<char>, s: Seq<char>, n: int)
    ensures
        forall|i: int, j: int|
            #[trigger] match_pairs_upto(rules, p, s, n).contains((i, j)) <==> (0 <= i < n
                && rule_has_src(rules[i], p) && rule_has_selector(rules[i], s) && 0 <= j < rules[i].paths.len()
                && rules[i].paths[j].src == p),
    decreases n,
{
    if n <= 0 {
        assert(match_pairs_upto(rules, p, s, n) =~= Seq::<(int, int)>::empty());
    } else {
        lemma_match_pairs_upto_exact(rules, p, s, n - 1);
        let rest = match_pairs_upto(rules, p, s, n - 1);
        if rule_has_src(rules[n - 1], p) && rule_has_selector(rules[n - 1], s) {
            lemma_rule_pairs_upto_exact(rules[n - 1], n - 1, p, rules[n - 1].paths.len() as int);
            assert(match_pairs_upto(rules, p, s, n) == rest + rule_pairs(rules[n - 1], n - 1, p));
            assert forall|i: int, j: int|
                #[trigger] match_pairs_upto(rules, p, s, n).contains((i, j)) <==> (0 <= i < n
                    && rule_has_src(rules[i], p) && rule_has_selector(rules[i], s) && 0 <= j
                    < rules[i].paths.len() && rules[i].paths[j].src == p) by {
                lemma_add_contains(rest, rule_pairs(rules[n - 1], n - 1, p), (i, j));
            }
        } else {
            assert(match_pairs_upto(rules, p, s, n) == rest);
        }
    }
}

/// The join holds a (rule, path entry) pair iff that rule lies in both
/// the source bucket of `p` and the selector bucket of `s` (by positional
/// identity, so equal-but-distinct rules are not merged) and the entry's
/// declared source is `p`.
pub proof fn lemma_match_pairs_exact(rules: Seq<WatcherConfigView>, p: Seq<char>, s: Seq<char>)
    ensures
        forall|i: int, j: int|
            #[trigger] match_pairs(rules, p, s).contains((i, j)) <==> (src_bucket(
                rules,
                p,
            ).contains(i) && selector_bucket(rules, s).contains(i) && 0 <= j
                < rules[i].paths.len() && rules[i].paths[j].src == p),
{
    lemma_match_pairs_upto_exact(rules, p, s, rules.len() as int);
    lemma_src_bucket_exact(rules, p);
    lemma_selector_bucket_exact(rules, s);
}

/// Read-only lookup structure over the rule list. Built once at startup
/// and only read afterwards.
pub struct SyncRouter {
    rules: Vec<WatcherConfig>,
}

impl SyncRouter {
    /// The views of the stored rules, in declaration order.
    pub closed spec fn rules_view(&self) -> Seq<WatcherConfigView> {
        self.rules@.map_values(|c: WatcherConfig| c@)
    }

    pub fn new(configs: Vec<WatcherConfig>) -> (r: Self)
        ensures
            r.rules_view() == configs@.map_values(|c: WatcherConfig| c@),
    {
        SyncRouter { rules: configs }
    }

    /// All rules declaring a path entry whose source is `src`, in
    /// declaration order, one occurrence per rule.
    pub fn configs_by_src(&self, src: &str) -> (r: Vec<WatcherConfig>)
        ensures
            bucket_match(self.rules_view(), src_bucket(self.rules_view(), src@), r@),
    {
        let key: String = src.to_owned();
        let mut r: Vec<WatcherConfig> = Vec::new();
        let mut i: usize = 0;
        while i < self.rules.len()
            invariant
                i <= self.rules.len(),
                key@ == src@,
                bucket_match(self.rules_view(), src_bucket_upto(self.rules_view(), src@, i as int), r@),
            decreases self.rules.len() - i,
        {
            let ghost rv = self.rules_view();
            if config_has_src(&self.rules[i], &key) {
                r.push(self.rules[i].clone());
            }
            proof {
                assert(rv[i as int] == self.rules@[i as int]@);
                assert(src_bucket_upto(rv, src@, i + 1 as int) == if rule_has_src(rv[i as int], src@) {
                    src_bucket_upto(rv, src@, i as int).push(i as int)
                } else {
                    src_bucket_upto(rv, src@, i as int)
                });
            }
            i += 1;
        }
        r
    }

    /// All rules declaring label selector `selector`, in declaration
    /// order, one occurrence per rule.
    pub fn configs_by_selector(&self, selector: &str) -> (r: Vec<WatcherConfig>)
        ensures
            bucket_match(
                self.rules_view(),
                selector_bucket(self.rules_view(), selector@),
                r@,
            ),
    {
        let key: String = selector.to_owned();
        let mut r: Vec<WatcherConfig> = Vec::new();
        let mut i: usize = 0;
        while i < self.rules.len()
            invariant
                i <= self.rules.len(),
                key@ == selector@,
                bucket_match(
                    self.rules_view(),
                    selector_bucket_upto(self.rules_view(), selector@, i as int),
                    r@,
                ),
            decreases self.rules.len() - i,
        {
            let ghost rv = self.rules_view();
            if config_has_selector(&self.rules[i], &key) {
                r.push(self.rules[i].clone());
            }
            proof {
                assert(rv[i as int] == self.rules@[i as int]@);
                assert(selector_bucket_upto(rv, selector@, i + 1 as int)
                    == if rule_has_selector(rv[i as int], selector@) {
                    selector_bucket_upto(rv, selector@, i as int).push(i as int)
                } else {
                    selector_bucket_upto(rv, selector@, i as int)
                });
            }
            i += 1;
        }
        r
    }

    /// The join: one (rule, path entry) result per path entry with source
    /// `src` in a rule that lies in both the source bucket of `src` and
    /// the selector bucket of `selector`. Two structurally equal rules at
    /// different positions both contribute.
    pub fn match_configs(&self, src: &str, selector: &str) -> (r: Vec<(WatcherConfig, PathConfig)>)
        ensures
            pairs_match(self.rules_view(), match_pairs(self.rules_view(), src@, selector@), r@),
    {
        let src_key: String = src.to_owned();
        let sel_key: String = selector.to_owned();
        let mut r: Vec<(WatcherConfig, PathConfig)> = Vec::new();
        let mut i: usize = 0;
        while i < self.rules.len()
            invariant
                i <= self.rules.len(),
                src_key@ == src@,
                sel_key@ == selector@,
                pairs_match(
                    self.rules_view(),
                    match_pairs_upto(self.rules_view(), src@, selector@, i as int),
                    r@,
                ),
            decreases self.rules.len() - i,
        {
            let ghost rv = self.rules_view();
            let ghost r_before = r@;
            proof {
                assert(rv[i as int] == self.rules@[i as int]@);
            }
            if config_has_src(&self.rules[i], &src_key) && config_has_selector(
                &self.rules[i],
                &sel_key,
            ) {
                let config = &self.rules[i];
                let mut j: usize = 0;
                while j < config.paths.len()
                    invariant
                        j <= config.paths.len(),
                        src_key@ == src@,
                        config@ == rv[i as int],
                        0 <= i < rv.len(),
                        pairs_match(
                            rv,
                            match_pairs_upto(rv, src@, selector@, i as int)
                                + rule_pairs_upto(rv[i as int], i as int, src@, j as int),
                            r@,
                        ),
                    decreases config.paths.len() - j,
                {
                    if config.paths[j].src == src_key {
                        r.push((config.clone(), config.paths[j].clone()));
                        proof {
                            assert(config@.paths[j as int] == config.paths@[j as int]@);
                        }
                    }
                    proof {
                        let prefix = match_pairs_upto(rv, src@, selector@, i as int);
                        let inner = rule_pairs_upto(rv[i as int], i as int, src@, j as int);
                        assert(rule_pairs_upto(rv[i as int], i as int, src@, j + 1 as int)
                            == if rv[i as int].paths[j as int].src == src@ {
                            inner.push((i as int, j as int))
                        } else {
                            inner
                        });
                        assert(prefix + inner.push((i as int, j as int)) =~= (prefix + inner).push(
                            (i as int, j as int),
                        ));
                    }
                    j += 1;
                }
                proof {
                    assert(rule_pairs_upto(rv[i as int], i as int, src@, config.paths@.len() as int)
                        == rule_pairs(rv[i as int], i as int, src@));
                }
            }
            proof {
                assert(match_pairs_upto(rv, src@, selector@, i + 1 as int) == {
                    let rest = match_pairs_upto(rv, src@, selector@, i as int);
                    if rule_has_src(rv[i as int], src@) && rule_has_selector(rv[i as int], selector@) {
                        rest + rule_pairs(rv[i as int], i as int, src@)
                    } else {
                        rest
                    }
                });
            }
            i += 1;
        }
        r
    }
}

} // verus!
