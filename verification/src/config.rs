//! The rule data model: one `WatcherConfig` maps a set of local source
//! paths to destinations inside the pods that its label selectors pick
//! out. Rules are loaded once and never mutated afterwards; the rest of
//! the library only reads them.

use vstd::prelude::*;

verus! {

/// One source -> destination mapping declared by a rule.
pub struct PathConfig {
    pub src: String,
    pub dest: String,
}

/// Mathematical view of a `PathConfig`: both paths as character sequences.
#[verifier::ext_equal]
pub ghost struct PathConfigView {
    pub src: Seq<char>,
    pub dest: Seq<char>,
}

impl View for PathConfig {
    type V = PathConfigView;

    open spec fn view(&self) -> PathConfigView {
        PathConfigView { src: self.src@, dest: self.dest@ }
    }
}

impl Clone for PathConfig {
    fn clone(&self) -> (r: Self)
        ensures
            r == *self,
    {
        PathConfig { src: self.src.clone(), dest: self.dest.clone() }
    }
}

/// One synchronization rule: which cluster and namespace to target,
/// which label selectors pick the pods, and which paths to copy.
pub struct WatcherConfig {
    pub name: String,
    pub kube_context: String,
    pub namespace: String,
    pub label_selectors: Vec<String>,
    pub paths: Vec<PathConfig>,
}

/// Mathematical view of a rule, with every string as a character sequence.
#[verifier::ext_equal]
pub ghost struct WatcherConfigView {
    pub name: Seq<char>,
    pub kube_context: Seq<char>,
    pub namespace: Seq<char>,
    pub label_selectors: Seq<Seq<char>>,
    pub paths: Seq<PathConfigView>,
}

impl View for WatcherConfig {
    type V = WatcherConfigView;

    open spec fn view(&self) -> WatcherConfigView {
        WatcherConfigView {
            name: self.name@,
            kube_context: self.kube_context@,
            namespace: self.namespace@,
            label_selectors: self.label_selectors@.map_values(|s: String| s@),
            paths: self.paths@.map_values(|p: PathConfig| p@),
        }
    }
}

impl Clone for WatcherConfig {
    fn clone(&self) -> (r: Self)
        ensures
            r@ == self@,
    {
        let label_selectors = self.label_selectors.clone();
        let paths = self.paths.clone();
        proof {
            assert(label_selectors@ =~= self.label_selectors@);
            assert(paths@ =~= self.paths@);
        }
        let r = WatcherConfig {
            name: self.name.clone(),
            kube_context: self.kube_context.clone(),
            namespace: self.namespace.clone(),
            label_selectors,
            paths,
        };
        proof {
            assert(r@ =~= self@);
        }
        r
    }
}

/// A rule mentions source path `p` iff one of its path entries has it
/// as its source.
pub open spec fn rule_has_src(r: WatcherConfigView, p: Seq<char>) -> bool {
    exists|i: int| 0 <= i < r.paths.len() && r.paths[i].src == p
}

/// A rule mentions label selector `s` iff it is one of its declared
/// selectors.
pub open spec fn rule_has_selector(r: WatcherConfigView, s: Seq<char>) -> bool {
    exists|i: int| 0 <= i < r.label_selectors.len() && r.label_selectors[i] == s
}

/// Does this rule declare a path entry whose source is `src`?
pub fn config_has_src(c: &WatcherConfig, src: &String) -> (b: bool)
    ensures
        b == rule_has_src(c@, src@),
{
    let mut i: usize = 0;
    while i < c.paths.len()
        invariant
            i <= c.paths.len(),
            forall|j: int| 0 <= j < i ==> c@.paths[j].src != src@,
        decreases c.paths.len() - i,
    {
        if c.paths[i].src == *src {
            assert(c@.paths[i as int].src == src@);
            return true;
        }
        i += 1;
    }
    false
}

/// Does this rule declare label selector `selector`?
pub fn config_has_selector(c: &WatcherConfig, selector: &String) -> (b: bool)
    ensures
        b == rule_has_selector(c@, selector@),
{
    let mut i: usize = 0;
    while i < c.label_selectors.len()
        invariant
            i <= c.label_selectors.len(),
            forall|j: int| 0 <= j < i ==> c@.label_selectors[j] != selector@,
        decreases c.label_selectors.len() - i,
    {
        if c.label_selectors[i] == *selector {
            assert(c@.label_selectors[i as int] == selector@);
            return true;
        }
        i += 1;
    }
    false
}

} // verus!
