//! Link graph of constrained peak parameters.
//!
//! Every component has a key and, for each of its three physical parameters
//! (position, FWHM, area), an optional link to the same parameter of another
//! component. Links must resolve to an existing component, never to the
//! component itself, and never form a cycle. A valid link graph is evaluated
//! in a dependency order in which every referenced component comes before the
//! components that link to it.
use vstd::prelude::*;
use vstd::set_lib::*;

verus! {

/// Stable identity of one constrained component.
#[derive(Clone, Copy, Debug, PartialEq, Eq, PartialOrd, Ord, Hash)]
pub struct PeakConstraintKey(pub u64);

/// The three physical parameters of a component, in their evaluation order.
#[derive(Clone, Copy, Debug, PartialEq, Eq)]
pub enum ParameterKind {
    Position,
    Fwhm,
    Area,
}

/// The link structure of one component: its key and, per parameter, the key
/// of the component that parameter is linked to (if any).
#[derive(Clone, Copy, Debug)]
pub struct PeakLinks {
    pub key: PeakConstraintKey,
    pub position: Option<PeakConstraintKey>,
    pub fwhm: Option<PeakConstraintKey>,
    pub area: Option<PeakConstraintKey>,
}

impl PeakLinks {
    pub open spec fn link(self, kind: ParameterKind) -> Option<PeakConstraintKey> {
        match kind {
            ParameterKind::Position => self.position,
            ParameterKind::Fwhm => self.fwhm,
            ParameterKind::Area => self.area,
        }
    }

    /// The link of the parameter `kind`.
    pub fn link_for(&self, kind: ParameterKind) -> (r: Option<PeakConstraintKey>)
        ensures
            r == self.link(kind),
    {
        match kind {
            ParameterKind::Position => self.position,
            ParameterKind::Fwhm => self.fwhm,
            ParameterKind::Area => self.area,
        }
    }
}

/// Why a set of component links cannot be evaluated.
#[derive(Clone, Copy, Debug, PartialEq, Eq)]
pub enum LinkProblem {
    NoComponents,
    DuplicateKey,
    Cycle,
    MissingTarget,
    SelfLink,
}

impl LinkProblem {
    pub open spec fn spec_message(self) -> Seq<char> {
        match self {
            LinkProblem::NoComponents => "add at least one component"@,
            LinkProblem::DuplicateKey => "component keys must be unique"@,
            LinkProblem::Cycle => "parameter links contain a cycle"@,
            LinkProblem::MissingTarget => "a parameter link targets a missing component"@,
            LinkProblem::SelfLink => "a component cannot link to itself"@,
        }
    }

    /// The user-facing explanation of the problem.
    pub fn message(&self) -> (m: &'static str)
        ensures
            m@ == self.spec_message(),
    {
        match self {
            LinkProblem::NoComponents => "add at least one component",
            LinkProblem::DuplicateKey => "component keys must be unique",
            LinkProblem::Cycle => "parameter links contain a cycle",
            LinkProblem::MissingTarget => "a parameter link targets a missing component",
            LinkProblem::SelfLink => "a component cannot link to itself",
        }
    }
}

/// No two components share a key.
pub open spec fn keys_unique(peaks: Seq<PeakLinks>) -> bool {
    forall|i: int, j: int|
        0 <= i < peaks.len() && 0 <= j < peaks.len() && i != j ==> #[trigger] peaks[i].key
            != #[trigger] peaks[j].key
}

/// The index of the component carrying `key`, if there is one.
pub open spec fn key_position(peaks: Seq<PeakLinks>, key: PeakConstraintKey) -> Option<usize> {
    if exists|j: usize| j < peaks.len() && #[trigger] peaks[j as int].key == key {
        Some(choose|j: usize| j < peaks.len() && #[trigger] peaks[j as int].key == key)
    } else {
        None
    }
}

/// Where the parameter `kind` of component `v` points: `None` when it is not
/// linked, `Some(None)` when its link names no component, `Some(Some(t))`
/// when it names component `t`.
pub open spec fn link_target(peaks: Seq<PeakLinks>, kind: ParameterKind, v: usize) -> Option<
    Option<usize>,
> {
    match peaks[v as int].link(kind) {
        None => None,
        Some(key) => Some(key_position(peaks, key)),
    }
}

/// The first problem met when following links from the last node of `path`,
/// where `path` is the chain already followed.
pub open spec fn chain_problem(
    peaks: Seq<PeakLinks>,
    kind: ParameterKind,
    path: Seq<usize>,
) -> Option<LinkProblem>
    decreases peaks.len() - path.len(),
{
    if path.len() == 0 || path.len() > peaks.len() {
        None
    } else {
        let v = path.last();
        match link_target(peaks, kind, v) {
            None => None,
            Some(None) => Some(LinkProblem::MissingTarget),
            Some(Some(t)) => if t == v {
                Some(LinkProblem::SelfLink)
            } else if path.contains(t) {
                Some(LinkProblem::Cycle)
            } else if path.len() < peaks.len() {
                chain_problem(peaks, kind, path.push(t))
            } else {
                None
            },
        }
    }
}

/// The problem of the first component below `upto` (in component order) whose
/// chain of links is broken.
pub open spec fn order_problem(peaks: Seq<PeakLinks>, kind: ParameterKind, upto: int) -> Option<
    LinkProblem,
>
    decreases upto,
{
    if upto <= 0 {
        None
    } else {
        match order_problem(peaks, kind, upto - 1) {
            Some(p) => Some(p),
            None => chain_problem(peaks, kind, seq![(upto - 1) as usize]),
        }
    }
}

/// The chain walked from component `v`: `v`, then the component its
/// parameter `kind` links to, and so on, while that component is not yet in
/// `placed` (at most `fuel` links).
#[verifier::opaque]
pub open spec fn walk(
    peaks: Seq<PeakLinks>,
    kind: ParameterKind,
    placed: Seq<usize>,
    v: usize,
    fuel: nat,
) -> Seq<usize>
    decreases fuel,
{
    match link_target(peaks, kind, v) {
        Some(Some(t)) => if fuel > 0 && !placed.contains(t) {
            seq![v] + walk(peaks, kind, placed, t, (fuel - 1) as nat)
        } else {
            seq![v]
        },
        _ => seq![v],
    }
}

/// The evaluation order of the first `upto` components: each component not
/// yet placed brings its chain of links, deepest link target first.
#[verifier::opaque]
pub open spec fn dfs_order(peaks: Seq<PeakLinks>, kind: ParameterKind, upto: int) -> Seq<usize>
    decreases upto,
{
    if upto <= 0 {
        Seq::empty()
    } else {
        let prev = dfs_order(peaks, kind, upto - 1);
        let v = (upto - 1) as usize;
        if prev.contains(v) {
            prev
        } else {
            prev + walk(peaks, kind, prev, v, peaks.len() as nat).reverse()
        }
    }
}

/// Every entry of `order` is a component index whose link target (if any)
/// appears strictly earlier, and no entry appears twice.
pub open spec fn prefix_respects_links(
    peaks: Seq<PeakLinks>,
    kind: ParameterKind,
    order: Seq<usize>,
) -> bool {
    &&& order.no_duplicates()
    &&& forall|a: int| 0 <= a < order.len() ==> #[trigger] order[a] < peaks.len()
    &&& forall|a: int|
        0 <= a < order.len() ==> match #[trigger] link_target(peaks, kind, order[a]) {
            None => true,
            Some(None) => false,
            Some(Some(t)) => exists|b: int| 0 <= b < a && #[trigger] order[b] == t,
        }
}

/// `order` is a dependency order of all components for parameter `kind`:
/// a permutation of the component indices in which every link target comes
/// before the component linking to it.
pub open spec fn is_dependency_order(
    peaks: Seq<PeakLinks>,
    kind: ParameterKind,
    order: Seq<usize>,
) -> bool {
    &&& order.len() == peaks.len()
    &&& prefix_respects_links(peaks, kind, order)
}

/// The set `{0, .., n - 1}` has `n` elements.
proof fn lemma_index_range(n: usize)
    ensures
        Set::new(|x: usize| x < n).finite(),
        Set::new(|x: usize| x < n).len() == n,
    decreases n,
{
    if n == 0 {
        assert(Set::new(|x: usize| x < n) =~= Set::<usize>::empty());
    } else {
        let m = (n - 1) as usize;
        lemma_index_range(m);
        assert(Set::new(|x: usize| x < m).insert(m) =~= Set::new(|x: usize| x < n));
    }
}

/// A duplicate-free sequence of indices below `n` has at most `n` entries, and
/// fewer when it misses some index below `n`.
proof fn lemma_distinct_indices_len(s: Seq<usize>, n: usize)
    requires
        s.no_duplicates(),
        forall|a: int| 0 <= a < s.len() ==> #[trigger] s[a] < n,
    ensures
        s.len() <= n,
        forall|m: usize| m < n && !s.contains(m) ==> s.len() < n,
{
    s.unique_seq_to_set();
    lemma_index_range(n);
    let all = Set::new(|x: usize| x < n);
    assert(s.to_set().subset_of(all));
    lemma_len_subset(s.to_set(), all);
    assert forall|m: usize| m < n && !s.contains(m) implies s.len() < n by {
        assert(s.to_set().subset_of(all.remove(m)));
        lemma_len_subset(s.to_set(), all.remove(m));
    }
}

/// A sequence of indices below `n` that contains every index below `n` and no
/// duplicate has exactly `n` entries.
proof fn lemma_full_indices_len(s: Seq<usize>, n: usize)
    requires
        s.no_duplicates(),
        forall|a: int| 0 <= a < s.len() ==> #[trigger] s[a] < n,
        forall|m: usize| m < n ==> #[trigger] s.contains(m),
    ensures
        s.len() == n,
{
    s.unique_seq_to_set();
    lemma_index_range(n);
    let all = Set::new(|x: usize| x < n);
    assert(s.to_set() =~= all);
}

/// Once some component's chain is broken, the reported problem no longer
/// changes as more components are considered.
proof fn lemma_order_problem_stable(peaks: Seq<PeakLinks>, kind: ParameterKind, a: int, b: int)
    requires
        a <= b,
        order_problem(peaks, kind, a) is Some,
    ensures
        order_problem(peaks, kind, b) == order_problem(peaks, kind, a),
    decreases b - a,
{
    if a < b {
        lemma_order_problem_stable(peaks, kind, a, b - 1);
    }
}

/// Following links from a component already placed in a link-respecting
/// prefix never meets a problem, provided the chain walked so far does not
/// contain a placed component later than the current one.
proof fn lemma_placed_chain_fine(
    peaks: Seq<PeakLinks>,
    kind: ParameterKind,
    out: Seq<usize>,
    path: Seq<usize>,
    a: int,
)
    requires
        prefix_respects_links(peaks, kind, out),
        0 <= a < out.len(),
        path.len() > 0,
        path.last() == out[a],
        forall|j: int, b: int|
            0 <= j < path.len() && 0 <= b < out.len() && #[trigger] path[j] == #[trigger] out[b]
                ==> b >= a,
    ensures
        chain_problem(peaks, kind, path) is None,
    decreases a,
{
    if path.len() > peaks.len() {
    } else {
        let v = path.last();
        assert(out[a] == v);
        match link_target(peaks, kind, v) {
            None => {},
            Some(None) => {
                assert(false);
            },
            Some(Some(t)) => {
                let b = choose|b: int| 0 <= b < a && #[trigger] out[b] == t;
                assert(out[b] == t);
                if t == v {
                    assert(out[a] == out[b]);
                    assert(false);
                }
                if path.contains(t) {
                    let j = choose|j: int| 0 <= j < path.len() && path[j] == t;
                    assert(path[j] == out[b]);
                    assert(false);
                }
                if path.len() < peaks.len() {
                    let next = path.push(t);
                    assert forall|j: int, c: int|
                        0 <= j < next.len() && 0 <= c < out.len() && #[trigger] next[j]
                            == #[trigger] out[c] implies c >= b by {
                        if j < path.len() {
                            assert(next[j] == path[j]);
                        } else {
                            assert(out[c] == out[b]);
                        }
                    }
                    lemma_placed_chain_fine(peaks, kind, out, next, b);
                }
            },
        }
    }
}

proof fn lemma_unique_key_at(peaks: Seq<PeakLinks>, a: int, b: int)
    requires
        keys_unique(peaks),
        0 <= a < peaks.len(),
        0 <= b < peaks.len(),
        a != b,
    ensures
        peaks[a].key != peaks[b].key,
{
}

/// Placing the next node of a walked chain (walked from `whole[0]`, placed
/// deepest first) keeps the placed order link-respecting.
proof fn lemma_place_next(
    peaks: Seq<PeakLinks>,
    kind: ParameterKind,
    out0: Seq<usize>,
    whole: Seq<usize>,
    before: Seq<usize>,
    k: int,
)
    requires
        0 <= k < whole.len(),
        whole.no_duplicates(),
        forall|j: int| 0 <= j < whole.len() ==> #[trigger] whole[j] < peaks.len(),
        forall|j: int| 0 <= j < whole.len() ==> !out0.contains(#[trigger] whole[j]),
        forall|j: int|
            0 <= j < whole.len() - 1 ==> link_target(peaks, kind, #[trigger] whole[j]) == Some(
                Some(whole[j + 1]),
            ),
        match link_target(peaks, kind, whole.last()) {
            None => true,
            Some(None) => false,
            Some(Some(t)) => out0.contains(t),
        },
        prefix_respects_links(peaks, kind, out0),
        before.len() == out0.len() + (whole.len() - 1 - k),
        forall|a: int| 0 <= a < out0.len() ==> #[trigger] before[a] == out0[a],
        forall|a: int|
            0 <= a < whole.len() - 1 - k ==> #[trigger] before[out0.len() + a] == whole[whole.len()
                - 1 - a],
        prefix_respects_links(peaks, kind, before),
    ensures
        !before.contains(whole[k]),
        prefix_respects_links(peaks, kind, before.push(whole[k])),
{
    let v = whole[k];
    let after = before.push(v);
    let last = before.len() as int;
    assert(!before.contains(v)) by {
        if before.contains(v) {
            let a = choose|a: int| 0 <= a < before.len() && before[a] == v;
            if a < out0.len() {
                assert(out0[a] == v);
                assert(out0.contains(whole[k]));
            } else {
                let e = a - out0.len();
                assert(before[out0.len() + e] == whole[whole.len() - 1 - e]);
                assert(whole[whole.len() - 1 - e] == whole[k]);
            }
        }
    }
    assert forall|a: int| 0 <= a < after.len() implies #[trigger] after[a] < peaks.len() by {
        if a < last {
            assert(after[a] == before[a]);
        }
    }
    assert forall|a: int|
        0 <= a < after.len() implies match #[trigger] link_target(peaks, kind, after[a]) {
        None => true,
        Some(None) => false,
        Some(Some(t)) => exists|b: int| 0 <= b < a && #[trigger] after[b] == t,
    } by {
        if a < last {
            assert(after[a] == before[a]);
            match link_target(peaks, kind, before[a]) {
                Some(Some(t)) => {
                    let b = choose|b: int| 0 <= b < a && #[trigger] before[b] == t;
                    assert(after[b] == t);
                },
                _ => {},
            }
        } else {
            assert(after[a] == v);
            if k < whole.len() - 1 {
                let t = whole[k + 1];
                let e = whole.len() - 1 - (k + 1);
                assert(before[out0.len() + e] == t);
                assert(after[out0.len() + e] == t);
            } else {
                match link_target(peaks, kind, v) {
                    Some(Some(t)) => {
                        let b = choose|b: int| 0 <= b < out0.len() && out0[b] == t;
                        assert(before[b] == t);
                        assert(after[b] == t);
                    },
                    _ => {},
                }
            }
        }
    }
    assert forall|a: int, b: int|
        0 <= a < after.len() && 0 <= b < after.len() && a != b implies after[a] != after[b] by {
        if a < last && b < last {
        } else if a == last {
            assert(before.contains(before[b]));
        } else {
            assert(before.contains(before[a]));
        }
    }
}

/// The index of the component carrying `key`.
pub fn find_key(peaks: &Vec<PeakLinks>, key: PeakConstraintKey) -> (r: Option<usize>)
    requires
        keys_unique(peaks@),
    ensures
        r == key_position(peaks@, key),
        r matches Some(j) ==> j < peaks@.len() && peaks@[j as int].key == key,
{
    let mut j: usize = 0;
    while j < peaks.len()
        invariant
            j <= peaks.len(),
            keys_unique(peaks@),
            forall|k: usize| k < j ==> #[trigger] peaks@[k as int].key != key,
        decreases peaks.len() - j,
    {
        if peaks[j].key.0 == key.0 {
            assert(peaks@[j as int].key == key);
            let ghost c = choose|c: usize| c < peaks@.len() && #[trigger] peaks@[c as int].key == key;
            assert(c == j) by {
                if c != j {
                    lemma_unique_key_at(peaks@, c as int, j as int);
                }
            }
            return Some(j);
        }
        j = j + 1;
    }
    assert(!exists|c: usize| c < peaks@.len() && #[trigger] peaks@[c as int].key == key);
    None
}

/// Follow the links of parameter `kind` from component `i`, which is not
/// yet placed, until a component whose link ends or names a placed one:
/// the chain walked, or the problem of `i`'s chain.
#[verifier::spinoff_prover]
#[verifier::rlimit(40)]
fn walk_chain(
    peaks: &Vec<PeakLinks>,
    kind: ParameterKind,
    visited: &Vec<bool>,
    out: &Vec<usize>,
    i: usize,
) -> (r: Result<Vec<usize>, LinkProblem>)
    requires
        peaks@.len() == visited@.len(),
        keys_unique(peaks@),
        i < peaks@.len(),
        !visited@[i as int],
        forall|u: usize| u < i ==> #[trigger] visited@[u as int],
        order_problem(peaks@, kind, i as int) is None,
        prefix_respects_links(peaks@, kind, out@),
        forall|v: usize| v < peaks@.len() ==> (#[trigger] visited@[v as int] <==> out@.contains(v)),
    ensures
        match r {
            Err(p) => order_problem(peaks@, kind, peaks@.len() as int) == Some(p),
            Ok(path) => {
                &&& walk(peaks@, kind, out@, i, peaks@.len() as nat) == path@
                &&& path@.len() > 0
                &&& path@[0] == i
                &&& path@.no_duplicates()
                &&& forall|j: int| 0 <= j < path@.len() ==> #[trigger] path@[j] < peaks@.len()
                &&& forall|j: int| 0 <= j < path@.len() ==> !visited@[#[trigger] path@[j] as int]
                &&& forall|j: int|
                    0 <= j < path@.len() - 1 ==> link_target(peaks@, kind, #[trigger] path@[j])
                        == Some(Some(path@[j + 1]))
                &&& chain_problem(peaks@, kind, seq![i]) is None
                &&& match link_target(peaks@, kind, path@.last()) {
                    None => true,
                    Some(None) => false,
                    Some(Some(t)) => out@.contains(t),
                }
            },
        },
{
    let n = peaks.len();
    let mut path: Vec<usize> = Vec::new();
    path.push(i);
    let mut in_path: Vec<bool> = Vec::new();
    let mut f: usize = 0;
    while f < n
        invariant
            f <= n,
            in_path@.len() == f,
            forall|v: int| 0 <= v < f ==> #[trigger] in_path@[v] == (v == i),
        decreases n - f,
    {
        in_path.push(f == i);
        f = f + 1;
    }
    assert(path@ =~= seq![i]);
    assert(path@.drop_last() + walk(peaks@, kind, out@, i, n as nat) =~= walk(
        peaks@,
        kind,
        out@,
        i,
        n as nat,
    ));
    // Walk the chain of links starting at `i`.
    loop
        invariant_except_break
            walk(peaks@, kind, out@, i, n as nat) == path@.drop_last() + walk(
                peaks@,
                kind,
                out@,
                path@.last(),
                (n - (path@.len() - 1)) as nat,
            ),
            n == peaks@.len(),
            keys_unique(peaks@),
            visited@.len() == n,
            in_path@.len() == n,
            i < n,
            !visited@[i as int],
            forall|u: usize| u < i ==> #[trigger] visited@[u as int],
            order_problem(peaks@, kind, i as int) is None,
            prefix_respects_links(peaks@, kind, out@),
            forall|v: usize| v < n ==> (#[trigger] visited@[v as int] <==> out@.contains(v)),
            path@.len() > 0,
            path@[0] == i,
            path@.no_duplicates(),
            forall|j: int| 0 <= j < path@.len() ==> #[trigger] path@[j] < n,
            forall|j: int| 0 <= j < path@.len() ==> !visited@[#[trigger] path@[j] as int],
            forall|v: usize| v < n ==> (#[trigger] in_path@[v as int] <==> path@.contains(v)),
            forall|j: int|
                0 <= j < path@.len() - 1 ==> link_target(peaks@, kind, #[trigger] path@[j])
                    == Some(Some(path@[j + 1])),
            chain_problem(peaks@, kind, seq![i]) == chain_problem(peaks@, kind, path@),
        ensures
            walk(peaks@, kind, out@, i, n as nat) == path@,
            n == peaks@.len(),
            visited@.len() == n,
            i < n,
            !visited@[i as int],
            forall|u: usize| u < i ==> #[trigger] visited@[u as int],
            order_problem(peaks@, kind, i as int) is None,
            prefix_respects_links(peaks@, kind, out@),
            forall|v: usize| v < n ==> (#[trigger] visited@[v as int] <==> out@.contains(v)),
            path@.len() > 0,
            path@[0] == i,
            path@.no_duplicates(),
            forall|j: int| 0 <= j < path@.len() ==> #[trigger] path@[j] < n,
            forall|j: int| 0 <= j < path@.len() ==> !visited@[#[trigger] path@[j] as int],
            forall|j: int|
                0 <= j < path@.len() - 1 ==> link_target(peaks@, kind, #[trigger] path@[j])
                    == Some(Some(path@[j + 1])),
            chain_problem(peaks@, kind, seq![i]) is None,
            match link_target(peaks@, kind, path@.last()) {
                None => true,
                Some(None) => false,
                Some(Some(t)) => out@.contains(t),
            },
        decreases n - path@.len(),
    {
        let v = path[path.len() - 1];
        proof {
            lemma_distinct_indices_len(path@, n);
        }
        match peaks[v].link_for(kind) {
            None => {
                assert(chain_problem(peaks@, kind, path@) is None);
                assert(walk(peaks@, kind, out@, v, (n - (path@.len() - 1)) as nat) == seq![v])
                    by {
                    reveal(walk);
                }
                assert(path@.drop_last() + seq![v] =~= path@);
                break ;
            },
            Some(key) => {
                let found = find_key(peaks, key);
                let t = match found {
                    None => {
                        proof {
                            lemma_order_problem_stable(
                                peaks@,
                                kind,
                                (i + 1) as int,
                                n as int,
                            );
                        }
                        return Err(LinkProblem::MissingTarget);
                    },
                    Some(t) => t,
                };
                if t == v {
                    proof {
                        lemma_order_problem_stable(peaks@, kind, (i + 1) as int, n as int);
                    }
                    return Err(LinkProblem::SelfLink);
                }
                if in_path[t] {
                    proof {
                        lemma_order_problem_stable(peaks@, kind, (i + 1) as int, n as int);
                    }
                    return Err(LinkProblem::Cycle);
                }
                if visited[t] {
                    proof {
                        assert(!path@.contains(t));
                        lemma_distinct_indices_len(path@, n);
                        let next = path@.push(t);
                        assert(chain_problem(peaks@, kind, path@) == chain_problem(
                            peaks@,
                            kind,
                            next,
                        ));
                        let a = choose|a: int| 0 <= a < out@.len() && out@[a] == t;
                        assert forall|j: int, b: int|
                            0 <= j < next.len() && 0 <= b < out@.len() && #[trigger] next[j]
                                == #[trigger] out@[b] implies b >= a by {
                            if j < path@.len() {
                                assert(next[j] == path@[j]);
                                assert(out@.contains(path@[j]));
                            } else {
                                assert(out@[b] == out@[a]);
                            }
                        }
                        lemma_placed_chain_fine(peaks@, kind, out@, next, a);
                        assert(out@.contains(t));
                        assert(walk(peaks@, kind, out@, v, (n - (path@.len() - 1)) as nat)
                            == seq![v]) by {
                            reveal(walk);
                        }
                        assert(path@.drop_last() + seq![v] =~= path@);
                    }
                    break ;
                }
                proof {
                    assert(!path@.contains(t));
                    lemma_distinct_indices_len(path@, n);
                }
                let ghost old_path = path@;
                path.push(t);
                in_path.set(t, true);
                proof {
                    assert(path@ == old_path.push(t));
                    assert(!out@.contains(t));
                    assert(walk(peaks@, kind, out@, v, (n - (old_path.len() - 1)) as nat) == seq![v]
                        + walk(peaks@, kind, out@, t, (n - (old_path.len() - 1) - 1) as nat)) by {
                        reveal(walk);
                    }
                    assert(path@.drop_last() =~= old_path);
                    assert(old_path.drop_last() + seq![v] =~= old_path);
                    assert(old_path.drop_last() + (seq![v] + walk(
                        peaks@,
                        kind,
                        out@,
                        t,
                        (n - (old_path.len() - 1) - 1) as nat,
                    )) =~= old_path + walk(peaks@, kind, out@, t, (n - (path@.len() - 1)) as nat));
                    assert(chain_problem(peaks@, kind, old_path) == chain_problem(
                        peaks@,
                        kind,
                        path@,
                    ));
                    assert forall|j: int|
                        0 <= j < path@.len() - 1 implies link_target(
                        peaks@,
                        kind,
                        #[trigger] path@[j],
                    ) == Some(Some(path@[j + 1])) by {
                        if j < old_path.len() - 1 {
                            assert(path@[j] == old_path[j]);
                            assert(path@[j + 1] == old_path[j + 1]);
                        }
                    }
                    assert forall|v2: usize| v2 < n implies (#[trigger] in_path@[v2 as int]
                        <==> path@.contains(v2)) by {
                        if v2 == t {
                            assert(path@[path@.len() - 1] == t);
                        } else {
                            if old_path.contains(v2) {
                                let k = choose|k: int| 0 <= k < old_path.len() && old_path[k] == v2;
                                assert(path@[k] == v2);
                            }
                            if path@.contains(v2) {
                                let k = choose|k: int| 0 <= k < path@.len() && path@[k] == v2;
                                assert(old_path[k] == v2);
                            }
                        }
                    }
                }
            },
        }
    }
    Ok(path)
}

/// Place a walked chain, deepest link target first, marking each placed
/// component.
#[verifier::rlimit(60)]
fn place_chain(
    peaks: &Vec<PeakLinks>,
    kind: ParameterKind,
    visited: &mut Vec<bool>,
    out: &mut Vec<usize>,
    path: &Vec<usize>,
    i: usize,
)
    requires
        old(visited)@.len() == peaks@.len(),
        i < peaks@.len(),
        path@.len() > 0,
        path@[0] == i,
        path@.no_duplicates(),
        forall|j: int| 0 <= j < path@.len() ==> #[trigger] path@[j] < peaks@.len(),
        forall|j: int| 0 <= j < path@.len() ==> !old(out)@.contains(#[trigger] path@[j]),
        forall|j: int|
            0 <= j < path@.len() - 1 ==> link_target(peaks@, kind, #[trigger] path@[j])
                == Some(Some(path@[j + 1])),
        match link_target(peaks@, kind, path@.last()) {
            None => true,
            Some(None) => false,
            Some(Some(t)) => old(out)@.contains(t),
        },
        prefix_respects_links(peaks@, kind, old(out)@),
        forall|v: usize| v < peaks@.len() ==> (#[trigger] old(visited)@[v as int] <==> old(out)@.contains(v)),
        forall|u: usize| u < i ==> #[trigger] old(visited)@[u as int],
    ensures
        final(out)@ == old(out)@ + path@.reverse(),
        final(visited)@.len() == peaks@.len(),
        prefix_respects_links(peaks@, kind, final(out)@),
        forall|v: usize| v < peaks@.len() ==> (#[trigger] final(visited)@[v as int] <==> final(out)@.contains(v)),
        final(visited)@[i as int],
        forall|u: usize| u < i ==> #[trigger] final(visited)@[u as int],
{
    let n = peaks.len();
    // Place the walked chain, deepest link target first.
    let ghost out0 = out@;
    let ghost whole = path@;
    let mut k = path.len();
    while k > 0
        invariant
            n == peaks@.len(),
            whole == path@,
            k <= path@.len(),
            visited@.len() == n,
            whole.len() > 0,
            whole[0] == i,
            i < n,
            whole.no_duplicates(),
            forall|j: int| 0 <= j < whole.len() ==> #[trigger] whole[j] < n,
            forall|j: int| 0 <= j < whole.len() ==> !out0.contains(#[trigger] whole[j]),
            forall|j: int|
                0 <= j < whole.len() - 1 ==> link_target(peaks@, kind, #[trigger] whole[j])
                    == Some(Some(whole[j + 1])),
            match link_target(peaks@, kind, whole.last()) {
                None => true,
                Some(None) => false,
                Some(Some(t)) => out0.contains(t),
            },
            prefix_respects_links(peaks@, kind, out0),
            out@.len() == out0.len() + (whole.len() - k),
            forall|a: int| 0 <= a < out0.len() ==> #[trigger] out@[a] == out0[a],
            forall|a: int|
                0 <= a < whole.len() - k ==> #[trigger] out@[out0.len() + a] == whole[whole.len()
                    - 1 - a],
            prefix_respects_links(peaks@, kind, out@),
            forall|v: usize| v < n ==> (#[trigger] visited@[v as int] <==> out@.contains(v)),
            k == 0 ==> visited@[i as int],
            forall|u: usize| u < i ==> #[trigger] visited@[u as int],
        decreases k,
    {
        k = k - 1;
        let v = path[k];
        let ghost before = out@;
        proof {
            lemma_place_next(peaks@, kind, out0, whole, before, k as int);
        }
        visited.set(v, true);
        out.push(v);
        proof {
            let last = before.len() as int;
            assert(out@ == before.push(v));
            assert forall|v2: usize| v2 < n implies (#[trigger] visited@[v2 as int]
                <==> out@.contains(v2)) by {
                if v2 == v {
                    assert(out@[last] == v);
                } else {
                    if before.contains(v2) {
                        let c = choose|c: int| 0 <= c < before.len() && before[c] == v2;
                        assert(out@[c] == v2);
                    }
                    if out@.contains(v2) {
                        let c = choose|c: int| 0 <= c < out@.len() && out@[c] == v2;
                        assert(before[c] == v2);
                    }
                }
            }
            assert forall|a: int|
                0 <= a < whole.len() - k implies #[trigger] out@[out0.len() + a] == whole[whole.len()
                    - 1 - a] by {
                if a < whole.len() - k - 1 {
                    assert(out@[out0.len() + a] == before[out0.len() + a]);
                }
            }
            if k == 0 {
                assert(v == i);
            }
        }
    }
    proof {
        let target = out0 + whole.reverse();
        assert(out@.len() == target.len());
        assert forall|a: int| 0 <= a < out@.len() implies out@[a] == target[a] by {
            if a < out0.len() {
                assert(out@[a] == out0[a]);
            } else {
                let b = a - out0.len();
                assert(out@[out0.len() + b] == whole[whole.len() - 1 - b]);
            }
        }
        assert(out@ =~= target);
    }
}

/// Order the components so that every parameter `kind` link target precedes
/// the component linking to it, or report the first broken chain of links
/// (taking components in their given order, and following each chain from
/// its start).
#[verifier::rlimit(100)]
pub fn dependency_order(peaks: &Vec<PeakLinks>, kind: ParameterKind) -> (r: Result<
    Vec<usize>,
    LinkProblem,
>)
    requires
        keys_unique(peaks@),
    ensures
        match r {
            Ok(order) => order_problem(peaks@, kind, peaks@.len() as int) is None
                && order@ == dfs_order(peaks@, kind, peaks@.len() as int)
                && is_dependency_order(peaks@, kind, order@),
            Err(p) => order_problem(peaks@, kind, peaks@.len() as int) == Some(p),
        },
{
    let n = peaks.len();
    let mut visited: Vec<bool> = Vec::new();
    let mut fill: usize = 0;
    while fill < n
        invariant
            fill <= n,
            visited@.len() == fill,
            forall|v: int| 0 <= v < fill ==> !#[trigger] visited@[v],
        decreases n - fill,
    {
        visited.push(false);
        fill = fill + 1;
    }
    let mut out: Vec<usize> = Vec::new();
    assert(dfs_order(peaks@, kind, 0) == Seq::<usize>::empty()) by {
        reveal(dfs_order);
    }
    let mut i: usize = 0;
    while i < n
        invariant
            n == peaks@.len(),
            keys_unique(peaks@),
            out@ == dfs_order(peaks@, kind, i as int),
            visited@.len() == n,
            i <= n,
            order_problem(peaks@, kind, i as int) is None,
            prefix_respects_links(peaks@, kind, out@),
            forall|v: usize| v < n ==> (#[trigger] visited@[v as int] <==> out@.contains(v)),
            forall|v: usize| v < i ==> #[trigger] visited@[v as int],
        decreases n - i,
    {
        if visited[i] {
            proof {
                let a = choose|a: int| 0 <= a < out@.len() && out@[a] == i;
                lemma_placed_chain_fine(peaks@, kind, out@, seq![i], a);
                assert(dfs_order(peaks@, kind, i + 1) == dfs_order(peaks@, kind, i as int)) by {
                    reveal(dfs_order);
                }
            }
        } else {
            let path = match walk_chain(peaks, kind, &visited, &out, i) {
                Err(p) => {
                    return Err(p);
                },
                Ok(path) => path,
            };
            proof {
                assert forall|j: int| 0 <= j < path@.len() implies !out@.contains(#[trigger] path@[j]) by {
                    assert(!visited@[path@[j] as int]);
                }
            }
            let ghost out0 = out@;
            let ghost whole = path@;
            place_chain(peaks, kind, &mut visited, &mut out, &path, i);
            proof {
                assert(out@ =~= out0 + whole.reverse());
                assert(!out0.contains(i));
                assert(dfs_order(peaks@, kind, i + 1) == out0 + walk(
                    peaks@,
                    kind,
                    out0,
                    i,
                    n as nat,
                ).reverse()) by {
                    reveal(dfs_order);
                }
            }
        }
        proof {
            assert(order_problem(peaks@, kind, (i + 1) as int) == chain_problem(
                peaks@,
                kind,
                seq![i],
            ));
        }
        i = i + 1;
    }
    proof {
        assert forall|m: usize| m < n implies #[trigger] out@.contains(m) by {
            assert(visited@[m as int]);
        }
        lemma_full_indices_len(out@, n);
    }
    Ok(out)
}

/// Dependency orders of the three parameters of a valid link graph.
pub struct CompiledLinks {
    pub position_order: Vec<usize>,
    pub fwhm_order: Vec<usize>,
    pub area_order: Vec<usize>,
}

/// The problem that prevents compiling `peaks`, if any: no components, a
/// repeated key, or the first broken chain of position links, then of FWHM
/// links, then of area links.
pub open spec fn compile_problem(peaks: Seq<PeakLinks>) -> Option<LinkProblem> {
    if peaks.len() == 0 {
        Some(LinkProblem::NoComponents)
    } else if !keys_unique(peaks) {
        Some(LinkProblem::DuplicateKey)
    } else {
        match order_problem(peaks, ParameterKind::Position, peaks.len() as int) {
            Some(p) => Some(p),
            None => match order_problem(peaks, ParameterKind::Fwhm, peaks.len() as int) {
                Some(p) => Some(p),
                None => order_problem(peaks, ParameterKind::Area, peaks.len() as int),
            },
        }
    }
}

/// Whether two components share a key, checked pairwise.
pub fn has_duplicate_key(peaks: &Vec<PeakLinks>) -> (r: bool)
    ensures
        r == !keys_unique(peaks@),
{
    let n = peaks.len();
    let mut i: usize = 0;
    while i < n
        invariant
            n == peaks@.len(),
            i <= n,
            forall|a: int, b: int|
                0 <= a < i && 0 <= b < n && a != b ==> #[trigger] peaks@[a].key
                    != #[trigger] peaks@[b].key,
        decreases n - i,
    {
        let mut j: usize = 0;
        while j < n
            invariant
                n == peaks@.len(),
                i < n,
                j <= n,
                forall|a: int, b: int|
                    0 <= a < i && 0 <= b < n && a != b ==> #[trigger] peaks@[a].key
                        != #[trigger] peaks@[b].key,
                forall|b: int| 0 <= b < j && b != i ==> peaks@[i as int].key != #[trigger] peaks@[b].key,
            decreases n - j,
        {
            if j != i && peaks[i].key.0 == peaks[j].key.0 {
                assert(peaks@[i as int].key == peaks@[j as int].key);
                return true;
            }
            j = j + 1;
        }
        proof {
            assert forall|a: int, b: int|
                0 <= a < i + 1 && 0 <= b < n && a != b implies #[trigger] peaks@[a].key
                != #[trigger] peaks@[b].key by {
                if a == i {
                }
            }
        }
        i = i + 1;
    }
    false
}

/// Check the link graph of `peaks` and produce the dependency order of each
/// parameter. Fails exactly when `compile_problem` names a problem, with that
/// problem.
pub fn compile_links(peaks: &Vec<PeakLinks>) -> (r: Result<CompiledLinks, LinkProblem>)
    ensures
        match r {
            Ok(c) => {
                &&& compile_problem(peaks@) is None
                &&& keys_unique(peaks@)
                &&& c.position_order@ == dfs_order(peaks@, ParameterKind::Position, peaks@.len() as int)
                &&& c.fwhm_order@ == dfs_order(peaks@, ParameterKind::Fwhm, peaks@.len() as int)
                &&& c.area_order@ == dfs_order(peaks@, ParameterKind::Area, peaks@.len() as int)
                &&& is_dependency_order(peaks@, ParameterKind::Position, c.position_order@)
                &&& is_dependency_order(peaks@, ParameterKind::Fwhm, c.fwhm_order@)
                &&& is_dependency_order(peaks@, ParameterKind::Area, c.area_order@)
            },
            Err(p) => compile_problem(peaks@) == Some(p),
        },
{
    if peaks.len() == 0 {
        return Err(LinkProblem::NoComponents);
    }
    if has_duplicate_key(peaks) {
        return Err(LinkProblem::DuplicateKey);
    }
    let position_order = dependency_order(peaks, ParameterKind::Position)?;
    let fwhm_order = dependency_order(peaks, ParameterKind::Fwhm)?;
    let area_order = dependency_order(peaks, ParameterKind::Area)?;
    Ok(CompiledLinks { position_order, fwhm_order, area_order })
}

/// What the compiler reads of one parameter's constraint: a free parameter
/// with whether its bounds are finite, ordered and hold its finite initial
/// value; a fixed value or a link with whether its numbers are finite.
#[derive(Clone, Copy, Debug, PartialEq, Eq)]
pub enum ParameterCheck {
    Free { bounds_valid: bool },
    Fixed { finite: bool },
    Linked { finite: bool },
}

/// Why the values of a constraint set are refused.
#[derive(Clone, Copy, Debug, PartialEq, Eq)]
pub enum ValueProblem {
    FreeBounds,
    NotFinite,
}

impl ValueProblem {
    pub open spec fn spec_message(self) -> Seq<char> {
        match self {
            ValueProblem::FreeBounds => "free parameter bounds must be ordered and contain the initial value"@,
            ValueProblem::NotFinite => "parameter values must be finite"@,
        }
    }

    /// The user-facing explanation of the problem.
    pub fn message(&self) -> (m: &'static str)
        ensures
            m@ == self.spec_message(),
    {
        match self {
            ValueProblem::FreeBounds => "free parameter bounds must be ordered and contain the initial value",
            ValueProblem::NotFinite => "parameter values must be finite",
        }
    }
}

/// The problem one parameter's values have, if any.
pub open spec fn check_problem(check: ParameterCheck) -> Option<ValueProblem> {
    match check {
        ParameterCheck::Free { bounds_valid } => if bounds_valid {
            None
        } else {
            Some(ValueProblem::FreeBounds)
        },
        ParameterCheck::Fixed { finite } => if finite {
            None
        } else {
            Some(ValueProblem::NotFinite)
        },
        ParameterCheck::Linked { finite } => if finite {
            None
        } else {
            Some(ValueProblem::NotFinite)
        },
    }
}

/// The first problem among the first `upto` parameters.
pub open spec fn first_value_problem(checks: Seq<ParameterCheck>, upto: int) -> Option<ValueProblem>
    decreases upto,
{
    if upto <= 0 {
        None
    } else {
        match first_value_problem(checks, upto - 1) {
            Some(p) => Some(p),
            None => check_problem(checks[upto - 1]),
        }
    }
}

/// How many of the first `upto` parameters are free.
pub open spec fn free_count(checks: Seq<ParameterCheck>, upto: int) -> nat
    decreases upto,
{
    if upto <= 0 {
        0
    } else {
        free_count(checks, upto - 1) + if checks[upto - 1] is Free {
            1nat
        } else {
            0nat
        }
    }
}

/// Number the free parameters. `checks` lists every parameter of every
/// component, component by component and, within one, position, FWHM and
/// area. Each free parameter gets the next slot of the solver's vector, in
/// that order, and the others get none; the first parameter whose values are
/// invalid stops the numbering with its problem.
pub fn number_free_parameters(checks: &Vec<ParameterCheck>) -> (r: Result<Vec<Option<usize>>, ValueProblem>)
    ensures
        match first_value_problem(checks@, checks@.len() as int) {
            Some(p) => r == Err::<Vec<Option<usize>>, ValueProblem>(p),
            None => r matches Ok(slots) && slots@.len() == checks@.len() && forall|t: int|
                0 <= t < checks@.len() ==> #[trigger] slots@[t] == if checks@[t] is Free {
                    Some(free_count(checks@, t) as usize)
                } else {
                    None
                },
        },
{
    let mut slots: Vec<Option<usize>> = Vec::new();
    let mut next: usize = 0;
    let mut t: usize = 0;
    while t < checks.len()
        invariant
            t <= checks@.len(),
            slots@.len() == t,
            next == free_count(checks@, t as int),
            next <= t,
            first_value_problem(checks@, t as int) is None,
            forall|u: int|
                0 <= u < t ==> #[trigger] slots@[u] == if checks@[u] is Free {
                    Some(free_count(checks@, u) as usize)
                } else {
                    None
                },
        decreases checks.len() - t,
    {
        match checks[t] {
            ParameterCheck::Free { bounds_valid } => {
                if !bounds_valid {
                    proof {
                        lemma_first_problem_stays(checks@, t as int + 1, checks@.len() as int);
                    }
                    return Err(ValueProblem::FreeBounds);
                }
                slots.push(Some(next));
                next = next + 1;
            },
            ParameterCheck::Fixed { finite } | ParameterCheck::Linked { finite } => {
                if !finite {
                    proof {
                        lemma_first_problem_stays(checks@, t as int + 1, checks@.len() as int);
                    }
                    return Err(ValueProblem::NotFinite);
                }
                slots.push(None);
            },
        }
        t = t + 1;
    }
    Ok(slots)
}

/// Once a problem is found, later parameters do not change which is first.
proof fn lemma_first_problem_stays(checks: Seq<ParameterCheck>, upto: int, later: int)
    requires
        0 < upto <= later,
        first_value_problem(checks, upto) is Some,
    ensures
        first_value_problem(checks, later) == first_value_problem(checks, upto),
    decreases later - upto,
{
    if later > upto {
        lemma_first_problem_stays(checks, upto, later - 1);
    }
}

/// `q` holds the components of `p` in another order: `q[j]` is `p[perm[j]]`,
/// and `inv` undoes `perm`.
pub open spec fn is_reordering(p: Seq<PeakLinks>, q: Seq<PeakLinks>, perm: Seq<usize>, inv: Seq<usize>) -> bool {
    &&& q.len() == p.len()
    &&& perm.len() == p.len()
    &&& inv.len() == p.len()
    &&& forall|j: int| 0 <= j < q.len() ==> #[trigger] perm[j] < p.len() && q[j] == p[perm[j] as int]
    &&& forall|i: int| 0 <= i < p.len() ==> #[trigger] inv[i] < p.len() && perm[inv[i] as int] == i
    &&& forall|j: int| 0 <= j < q.len() ==> #[trigger] inv[perm[j] as int] == j
}

proof fn lemma_reordered_keys(p: Seq<PeakLinks>, q: Seq<PeakLinks>, perm: Seq<usize>, inv: Seq<usize>)
    requires
        is_reordering(p, q, perm, inv),
    ensures
        keys_unique(p) <==> keys_unique(q),
        keys_unique(p) ==> forall|key: PeakConstraintKey| #[trigger] key_position(q, key) == match key_position(p, key) {
            Some(i) => Some(inv[i as int]),
            None => None::<usize>,
        },
{
    if keys_unique(p) {
        assert forall|a: int, b: int|
            0 <= a < q.len() && 0 <= b < q.len() && a != b implies #[trigger] q[a].key != #[trigger] q[b].key by {
            assert(q[a] == p[perm[a] as int]);
            assert(q[b] == p[perm[b] as int]);
            if perm[a] == perm[b] {
                assert(inv[perm[a] as int] == a);
                assert(inv[perm[b] as int] == b);
            }
        }
        assert forall|key: PeakConstraintKey| #[trigger] key_position(q, key) == match key_position(p, key) {
            Some(i) => Some(inv[i as int]),
            None => None::<usize>,
        } by {
            if exists|j: usize| j < p.len() && #[trigger] p[j as int].key == key {
                let i = choose|j: usize| j < p.len() && #[trigger] p[j as int].key == key;
                let qi = inv[i as int];
                assert(q[qi as int] == p[i as int]);
                assert(q[qi as int].key == key);
                let c = choose|j: usize| j < q.len() && #[trigger] q[j as int].key == key;
                assert(q[c as int] == p[perm[c as int] as int]);
                assert(perm[c as int] == i);
                assert(inv[perm[c as int] as int] == c);
            } else {
                if exists|j: usize| j < q.len() && #[trigger] q[j as int].key == key {
                    let c = choose|j: usize| j < q.len() && #[trigger] q[j as int].key == key;
                    assert(q[c as int] == p[perm[c as int] as int]);
                    assert(p[perm[c as int] as int].key == key);
                }
            }
        }
    }
    if keys_unique(q) {
        assert forall|a: int, b: int|
            0 <= a < p.len() && 0 <= b < p.len() && a != b implies #[trigger] p[a].key != #[trigger] p[b].key by {
            let qa = inv[a];
            let qb = inv[b];
            assert(q[qa as int] == p[a]);
            assert(q[qb as int] == p[b]);
            assert(qa != qb);
        }
    }
}

/// `path` of `q` names the components `perm` maps it to in `p`.
pub open spec fn mapped(path: Seq<usize>, perm: Seq<usize>) -> Seq<usize> {
    path.map_values(|j: usize| perm[j as int])
}

proof fn lemma_chain_reordered(
    p: Seq<PeakLinks>,
    q: Seq<PeakLinks>,
    perm: Seq<usize>,
    inv: Seq<usize>,
    kind: ParameterKind,
    path: Seq<usize>,
)
    requires
        is_reordering(p, q, perm, inv),
        keys_unique(p),
        forall|j: int| 0 <= j < path.len() ==> #[trigger] path[j] < q.len(),
    ensures
        chain_problem(q, kind, path) == chain_problem(p, kind, mapped(path, perm)),
    decreases q.len() - path.len(),
{
    lemma_reordered_keys(p, q, perm, inv);
    let mp = mapped(path, perm);
    if path.len() == 0 || path.len() > q.len() {
    } else {
        let v = path.last();
        assert(mp.last() == perm[v as int]);
        assert(q[v as int] == p[perm[v as int] as int]);
        match q[v as int].link(kind) {
            None => {},
            Some(key) => {
                assert(key_position(q, key) == match key_position(p, key) {
                    Some(i) => Some(inv[i as int]),
                    None => None::<usize>,
                });
                match key_position(p, key) {
                    None => {},
                    Some(i) => {
                        let t = inv[i as int];
                        assert(perm[t as int] == i);
                        if exists|a: int| 0 <= a < p.len() && #[trigger] p[a].key == key {
                        }
                        assert(i < p.len()) by {
                            let w = choose|j: usize| j < p.len() && #[trigger] p[j as int].key == key;
                        }
                        assert((t == v) == (i == perm[v as int])) by {
                            if i == perm[v as int] {
                                assert(inv[perm[v as int] as int] == v);
                            }
                        }
                        assert(path.contains(t) == mp.contains(i)) by {
                            if path.contains(t) {
                                let a = choose|a: int| 0 <= a < path.len() && path[a] == t;
                                assert(mp[a] == i);
                            }
                            if mp.contains(i) {
                                let a = choose|a: int| 0 <= a < mp.len() && mp[a] == i;
                                assert(perm[path[a] as int] == i);
                                assert(inv[perm[path[a] as int] as int] == path[a]);
                            }
                        }
                        if t != v && !path.contains(t) && path.len() < q.len() {
                            lemma_chain_reordered(p, q, perm, inv, kind, path.push(t));
                            assert(mapped(path.push(t), perm) =~= mp.push(i));
                        }
                    },
                }
            },
        }
    }
}

proof fn lemma_order_problem_none(peaks: Seq<PeakLinks>, kind: ParameterKind, upto: int)
    requires
        0 <= upto <= peaks.len(),
    ensures
        order_problem(peaks, kind, upto) is None <==> forall|v: int|
            0 <= v < upto ==> #[trigger] chain_problem(peaks, kind, seq![v as usize]) is None,
    decreases upto,
{
    if upto > 0 {
        lemma_order_problem_none(peaks, kind, upto - 1);
    }
}

/// Stable identities: whether a set of component links is valid does not
/// depend on the order the components are listed in.
pub proof fn lemma_links_valid_in_any_order(
    p: Seq<PeakLinks>,
    q: Seq<PeakLinks>,
    perm: Seq<usize>,
    inv: Seq<usize>,
)
    requires
        is_reordering(p, q, perm, inv),
        p.len() <= usize::MAX,
    ensures
        compile_problem(p) is None <==> compile_problem(q) is None,
{
    lemma_reordered_keys(p, q, perm, inv);
    if p.len() > 0 && keys_unique(p) {
        let n = p.len() as int;
        assert forall|kind: ParameterKind|
            order_problem(p, kind, n) is None <==> #[trigger] order_problem(q, kind, n) is None by {
            lemma_order_problem_none(p, kind, n);
            lemma_order_problem_none(q, kind, n);
            assert forall|j: int| 0 <= j < n implies #[trigger] chain_problem(q, kind, seq![j as usize])
                == chain_problem(p, kind, seq![perm[j]]) by {
                lemma_chain_reordered(p, q, perm, inv, kind, seq![j as usize]);
                assert(mapped(seq![j as usize], perm) =~= seq![perm[j]]);
            }
            if order_problem(q, kind, n) is None {
                assert forall|v: int| 0 <= v < n implies #[trigger] chain_problem(p, kind, seq![v as usize]) is None by {
                    let j = inv[v];
                    assert(perm[j as int] == v);
                    assert(chain_problem(q, kind, seq![j as usize]) is None);
                }
            }
            if order_problem(p, kind, n) is None {
                assert forall|j: int| 0 <= j < n implies #[trigger] chain_problem(q, kind, seq![j as usize]) is None by {
                    let v = perm[j] as int;
                    assert(0 <= v < n);
                    assert(chain_problem(p, kind, seq![v as usize]) is None);
                    assert(seq![v as usize] =~= seq![perm[j]]);
                }
            }
        }
        assert(order_problem(p, ParameterKind::Position, n) is None <==> order_problem(q, ParameterKind::Position, n) is None);
        assert(order_problem(p, ParameterKind::Fwhm, n) is None <==> order_problem(q, ParameterKind::Fwhm, n) is None);
        assert(order_problem(p, ParameterKind::Area, n) is None <==> order_problem(q, ParameterKind::Area, n) is None);
    }
}


/// Where a present key sits, when keys are unique.
proof fn lemma_key_position_at(peaks: Seq<PeakLinks>, t: int)
    requires
        keys_unique(peaks),
        0 <= t < peaks.len(),
        peaks.len() <= usize::MAX,
    ensures
        key_position(peaks, peaks[t].key) == Some(t as usize),
{
    let key = peaks[t].key;
    assert(peaks[(t as usize) as int].key == key);
    let j = choose|j: usize| j < peaks.len() && #[trigger] peaks[j as int].key == key;
    if j as int != t {
        lemma_unique_key_at(peaks, j as int, t);
    }
}

/// In a valid set, no chain of any parameter is broken.
proof fn lemma_kind_chains_fine(peaks: Seq<PeakLinks>, kind: ParameterKind)
    requires
        compile_problem(peaks) is None,
    ensures
        forall|v: int| 0 <= v < peaks.len() ==> #[trigger] chain_problem(peaks, kind, seq![v as usize]) is None,
{
    let n = peaks.len() as int;
    lemma_order_problem_none(peaks, ParameterKind::Position, n);
    lemma_order_problem_none(peaks, ParameterKind::Fwhm, n);
    lemma_order_problem_none(peaks, ParameterKind::Area, n);
}

/// The set is valid when it is not empty, its keys are unique and no chain is
/// broken.
proof fn lemma_valid_from_chains(peaks: Seq<PeakLinks>)
    requires
        peaks.len() > 0,
        keys_unique(peaks),
        forall|kind: ParameterKind, v: int|
            0 <= v < peaks.len() ==> #[trigger] chain_problem(peaks, kind, seq![v as usize]) is None,
    ensures
        compile_problem(peaks) is None,
{
    let n = peaks.len() as int;
    lemma_order_problem_none(peaks, ParameterKind::Position, n);
    lemma_order_problem_none(peaks, ParameterKind::Fwhm, n);
    lemma_order_problem_none(peaks, ParameterKind::Area, n);
    assert forall|v: int| 0 <= v < n implies #[trigger] chain_problem(peaks, ParameterKind::Position, seq![v as usize]) is None by {}
    assert forall|v: int| 0 <= v < n implies #[trigger] chain_problem(peaks, ParameterKind::Fwhm, seq![v as usize]) is None by {}
    assert forall|v: int| 0 <= v < n implies #[trigger] chain_problem(peaks, ParameterKind::Area, seq![v as usize]) is None by {}
}

/// A chain of the set extended by `x`, over old components (after `x` itself
/// when `lead`), is unbroken when the same chain is unbroken in the old set.
proof fn lemma_extended_chain(
    p: Seq<PeakLinks>,
    x: PeakLinks,
    kind: ParameterKind,
    path: Seq<usize>,
    lead: bool,
)
    requires
        keys_unique(p.push(x)),
        p.len() + 1 <= usize::MAX,
        path.len() > 0,
        path.no_duplicates(),
        forall|a: int| 0 <= a < path.len() ==> #[trigger] path[a] < p.len(),
        chain_problem(p, kind, path) is None,
    ensures
        chain_problem(p.push(x), kind, if lead { seq![p.len() as usize] + path } else { path }) is None,
    decreases p.len() - path.len(),
{
    let q = p.push(x);
    let n = p.len() as int;
    let qpath = if lead { seq![n as usize] + path } else { path };
    lemma_distinct_indices_len(path, n as usize);
    assert(qpath.last() == path.last());
    let v = path.last();
    assert(q[v as int] == p[v as int]);
    assert(keys_unique(p)) by {
        assert forall|i: int, j: int| 0 <= i < p.len() && 0 <= j < p.len() && i != j implies #[trigger] p[i].key != #[trigger] p[j].key by {
            assert(q[i] == p[i]);
            assert(q[j] == p[j]);
        }
    }
    match p[v as int].link(kind) {
        None => {},
        Some(key) => {
            match key_position(p, key) {
                None => {},
                Some(t) => {
                    let w = choose|j: usize| j < p.len() && #[trigger] p[j as int].key == key;
                    assert(t == w && t < n);
                    assert(q[t as int] == p[t as int]);
                    lemma_key_position_at(q, t as int);
                    assert(path.contains(t) == qpath.contains(t)) by {
                        if qpath.contains(t) {
                            let a = choose|a: int| 0 <= a < qpath.len() && qpath[a] == t;
                            if lead {
                                assert(a > 0);
                                assert(path[a - 1] == t);
                            } else {
                                assert(path[a] == t);
                            }
                        }
                        if path.contains(t) {
                            let a = choose|a: int| 0 <= a < path.len() && path[a] == t;
                            if lead {
                                assert(qpath[a + 1] == t);
                            } else {
                                assert(qpath[a] == t);
                            }
                        }
                    }
                    if t != v && !path.contains(t) {
                        assert(path.len() < n);
                        lemma_extended_chain(p, x, kind, path.push(t), lead);
                        assert(path.push(t).no_duplicates());
                        if lead {
                            assert(seq![n as usize] + path.push(t) =~= qpath.push(t));
                        } else {
                            assert(path.push(t) =~= qpath.push(t));
                        }
                    }
                },
            }
        },
    }
}

/// Appending a component with a fresh key whose links all name present
/// components keeps a valid set of links valid.
pub proof fn lemma_appending_keeps_links_valid(p: Seq<PeakLinks>, x: PeakLinks)
    requires
        compile_problem(p) is None,
        p.len() + 1 <= usize::MAX,
        forall|j: int| 0 <= j < p.len() ==> #[trigger] p[j].key != x.key,
        forall|kind: ParameterKind| #[trigger] x.link(kind) is Some ==> exists|t: int|
            0 <= t < p.len() && #[trigger] p[t].key == x.link(kind)->0,
    ensures
        compile_problem(p.push(x)) is None,
{
    let q = p.push(x);
    let n = p.len() as int;
    assert(keys_unique(q)) by {
        assert forall|i: int, j: int| 0 <= i < q.len() && 0 <= j < q.len() && i != j implies #[trigger] q[i].key != #[trigger] q[j].key by {
            if i < n && j < n {
                lemma_unique_key_at(p, i, j);
            }
        }
    }
    assert forall|kind: ParameterKind, v: int| 0 <= v < q.len() implies #[trigger] chain_problem(q, kind, seq![v as usize]) is None by {
        lemma_kind_chains_fine(p, kind);
        if v < n {
            assert(chain_problem(p, kind, seq![v as usize]) is None);
            assert(seq![v as usize].no_duplicates());
            lemma_extended_chain(p, x, kind, seq![v as usize], false);
        } else {
            let path = seq![n as usize];
            assert(path.last() == n as usize);
            assert(q[n] == x);
            match x.link(kind) {
                None => {},
                Some(key) => {
                    let t = choose|t: int| 0 <= t < p.len() && #[trigger] p[t].key == key;
                    assert(q[t] == p[t]);
                    lemma_key_position_at(q, t);
                    assert(chain_problem(p, kind, seq![t as usize]) is None);
                    lemma_extended_chain(p, x, kind, seq![t as usize], true);
                    assert(seq![n as usize] + seq![t as usize] =~= path.push(t as usize));
                },
            }
        }
    }
    lemma_valid_from_chains(q);
}

/// A chain of the set without component `i`, mapped back to the full set's
/// indices, is unbroken when the mapped chain is unbroken there.
proof fn lemma_removed_chain(p: Seq<PeakLinks>, i: int, kind: ParameterKind, path: Seq<usize>)
    requires
        keys_unique(p),
        0 <= i < p.len(),
        p.len() <= usize::MAX,
        forall|j: int, k: ParameterKind| 0 <= j < p.len() ==> #[trigger] p[j].link(k) != Some(p[i].key),
        path.len() > 0,
        forall|a: int| 0 <= a < path.len() ==> #[trigger] path[a] < p.len() - 1,
        chain_problem(p, kind, skip_index(path, i)) is None,
    ensures
        chain_problem(p.remove(i), kind, path) is None,
    decreases p.len() - path.len(),
{
    let q = p.remove(i);
    let mp = skip_index(path, i);
    let v = path.last();
    let mv = mp.last();
    assert(mv == up(v, i));
    assert(q[v as int] == p[mv as int]);
    if path.len() <= q.len() {
        match q[v as int].link(kind) {
            None => {},
            Some(key) => {
                match key_position(p, key) {
                    None => {},
                    Some(t) => {
                        let w = choose|j: usize| j < p.len() && #[trigger] p[j as int].key == key;
                        assert(t == w);
                        assert(t as int != i);
                        let u: usize = if (t as int) < i { t } else { (t - 1) as usize };
                        assert(up(u, i) == t);
                        assert(q[u as int] == p[t as int]);
                        assert(keys_unique(q)) by {
                            assert forall|a: int, b: int| 0 <= a < q.len() && 0 <= b < q.len() && a != b implies #[trigger] q[a].key != #[trigger] q[b].key by {
                                let ua = if a < i { a } else { a + 1 };
                                let ub = if b < i { b } else { b + 1 };
                                assert(q[a] == p[ua]);
                                assert(q[b] == p[ub]);
                                lemma_unique_key_at(p, ua, ub);
                            }
                        }
                        lemma_key_position_at(q, u as int);
                        assert((u == v) == (t == mv));
                        assert(path.contains(u) == mp.contains(t)) by {
                            if path.contains(u) {
                                let a = choose|a: int| 0 <= a < path.len() && path[a] == u;
                                assert(mp[a] == t);
                            }
                            if mp.contains(t) {
                                let a = choose|a: int| 0 <= a < mp.len() && mp[a] == t;
                                assert(up(path[a], i) == t);
                                assert(path[a] == u);
                            }
                        }
                        if u != v && !path.contains(u) && path.len() < q.len() {
                            assert(skip_index(path.push(u), i) =~= mp.push(t));
                            lemma_removed_chain(p, i, kind, path.push(u));
                        }
                    },
                }
            },
        }
    }
}

/// The index in the full set of index `j` of the set without component `i`.
spec fn up(j: usize, i: int) -> usize {
    if (j as int) < i {
        j
    } else {
        (j + 1) as usize
    }
}

/// A path of the set without component `i`, in the full set's indices.
spec fn skip_index(path: Seq<usize>, i: int) -> Seq<usize> {
    path.map_values(|j: usize| up(j, i))
}

/// Removing a component that no component links to keeps a valid set of
/// links valid, unless nothing is left.
pub proof fn lemma_removing_unreferenced_keeps_links_valid(p: Seq<PeakLinks>, i: int)
    requires
        compile_problem(p) is None,
        0 <= i < p.len(),
        p.len() > 1,
        p.len() <= usize::MAX,
        forall|j: int, k: ParameterKind| 0 <= j < p.len() ==> #[trigger] p[j].link(k) != Some(p[i].key),
    ensures
        compile_problem(p.remove(i)) is None,
{
    let q = p.remove(i);
    assert(keys_unique(q)) by {
        assert forall|a: int, b: int| 0 <= a < q.len() && 0 <= b < q.len() && a != b implies #[trigger] q[a].key != #[trigger] q[b].key by {
            let ua = if a < i { a } else { a + 1 };
            let ub = if b < i { b } else { b + 1 };
            assert(q[a] == p[ua]);
            assert(q[b] == p[ub]);
            lemma_unique_key_at(p, ua, ub);
        }
    }
    assert forall|kind: ParameterKind, v: int| 0 <= v < q.len() implies #[trigger] chain_problem(q, kind, seq![v as usize]) is None by {
        lemma_kind_chains_fine(p, kind);
        let mv = up(v as usize, i);
        assert(skip_index(seq![v as usize], i) =~= seq![mv]);
        assert(chain_problem(p, kind, seq![mv]) is None);
        lemma_removed_chain(p, i, kind, seq![v as usize]);
    }
    lemma_valid_from_chains(q);
}

} // verus!
