//! Width planning for the Ribbon's command row: which scale each group is
//! drawn at, and which groups move to the More menu when even the narrowest
//! row does not fit.
//!
//! Widths are whole layout units (the caller measures text and converts).
//! A group's widths are listed per scale, richest first: Large, Medium,
//! Small, Collapsed. Priority 0 is the most important group.
use vstd::prelude::*;

verus! {

/// How much room one group takes, from the richest rendering down.
#[derive(Clone, Copy, Debug, PartialEq, Eq, Structural)]
pub enum GroupScale {
    /// Icon-over-label tiles in one row.
    Large,
    /// Icon-beside-label rows, two per column.
    Medium,
    /// Icon-only squares, two per column.
    Small,
    /// One tile carrying the group's icon and title.
    Collapsed,
}

/// A scale's place on the ladder, 0 for Large to 3 for Collapsed.
pub open spec fn level_of(s: GroupScale) -> int {
    match s {
        GroupScale::Large => 0,
        GroupScale::Medium => 1,
        GroupScale::Small => 2,
        GroupScale::Collapsed => 3,
    }
}

/// The scale at a place on the ladder.
pub open spec fn scale_at_level(l: int) -> GroupScale {
    if l <= 0 {
        GroupScale::Large
    } else if l == 1 {
        GroupScale::Medium
    } else if l == 2 {
        GroupScale::Small
    } else {
        GroupScale::Collapsed
    }
}

impl GroupScale {
    /// Every scale, richest first.
    pub fn all() -> (r: [GroupScale; 4])
        ensures
            r@ == seq![GroupScale::Large, GroupScale::Medium, GroupScale::Small, GroupScale::Collapsed],
    {
        [GroupScale::Large, GroupScale::Medium, GroupScale::Small, GroupScale::Collapsed]
    }

    /// The scale's place on the ladder.
    pub fn index(self) -> (r: usize)
        ensures
            r == level_of(self),
    {
        match self {
            GroupScale::Large => 0,
            GroupScale::Medium => 1,
            GroupScale::Small => 2,
            GroupScale::Collapsed => 3,
        }
    }

    fn from_index(l: usize) -> (r: GroupScale)
        requires
            l <= 3,
        ensures
            r == scale_at_level(l as int),
            level_of(r) == l,
    {
        if l == 0 {
            GroupScale::Large
        } else if l == 1 {
            GroupScale::Medium
        } else if l == 2 {
            GroupScale::Small
        } else {
            GroupScale::Collapsed
        }
    }
}

/// The task row's density summary.
#[derive(Clone, Copy, Debug, PartialEq, Eq, Structural)]
pub enum RibbonDensity {
    /// The user collapsed the command row.
    Collapsed,
    /// Every group at Large and on the Ribbon.
    Full,
    /// Some group stepped down or went to the More menu.
    Scaled,
}

/// The scale of every group of a tab, plus which groups still fit on the
/// Ribbon at that scale.
#[derive(Clone, Debug, PartialEq, Eq)]
pub struct TabPlan {
    pub scales: Vec<GroupScale>,
    pub shown: Vec<bool>,
}

/// Every group at Large and shown.
pub open spec fn plan_is_full(scales: Seq<GroupScale>, shown: Seq<bool>) -> bool {
    (forall|i: int| 0 <= i < scales.len() ==> scales[i] == GroupScale::Large) && (forall|i: int|
        0 <= i < shown.len() ==> shown[i])
}

impl TabPlan {
    /// Every group at Large and shown.
    pub fn is_full(&self) -> (r: bool)
        ensures
            r == plan_is_full(self.scales@, self.shown@),
    {
        let mut i: usize = 0;
        while i < self.scales.len()
            invariant
                i <= self.scales@.len(),
                forall|k: int| 0 <= k < i ==> self.scales@[k] == GroupScale::Large,
            decreases self.scales.len() - i,
        {
            if self.scales[i] != GroupScale::Large {
                return false;
            }
            i = i + 1;
        }
        let mut j: usize = 0;
        while j < self.shown.len()
            invariant
                j <= self.shown@.len(),
                forall|k: int| 0 <= k < j ==> self.shown@[k],
                forall|k: int| 0 <= k < self.scales@.len() ==> self.scales@[k] == GroupScale::Large,
            decreases self.shown.len() - j,
        {
            if !self.shown[j] {
                return false;
            }
            j = j + 1;
        }
        true
    }
}

/// The density the task row shows for a plan.
pub open spec fn spec_density(expanded: bool, plan: TabPlan) -> RibbonDensity {
    if !expanded {
        RibbonDensity::Collapsed
    } else if plan_is_full(plan.scales@, plan.shown@) {
        RibbonDensity::Full
    } else {
        RibbonDensity::Scaled
    }
}

/// `Full` when every group sits at Large, `Scaled` once any group has
/// stepped down or overflowed, `Collapsed` when the user collapsed the row.
pub fn density(expanded: bool, plan: &TabPlan) -> (r: RibbonDensity)
    ensures
        r == spec_density(expanded, *plan),
{
    if !expanded {
        RibbonDensity::Collapsed
    } else if plan.is_full() {
        RibbonDensity::Full
    } else {
        RibbonDensity::Scaled
    }
}

/// The place of the narrowest scale among the first `k + 1` places, the
/// richer one on ties.
pub open spec fn narrowest_level(w: Seq<u64>, k: int) -> int
    decreases k,
{
    if k <= 0 {
        0
    } else {
        let b = narrowest_level(w, k - 1);
        if w[k] < w[b] {
            k
        } else {
            b
        }
    }
}

proof fn lemma_narrowest_level(w: Seq<u64>, k: int)
    requires
        0 <= k < w.len(),
    ensures
        0 <= narrowest_level(w, k) <= k,
        forall|j: int| 0 <= j <= k ==> w[narrowest_level(w, k)] <= #[trigger] w[j],
        forall|j: int| 0 <= j < narrowest_level(w, k) ==> w[narrowest_level(w, k)] < #[trigger] w[j],
    decreases k,
{
    if k > 0 {
        lemma_narrowest_level(w, k - 1);
    }
}

/// The scale at or above `level` with the smallest width, preferring the
/// richer scale on ties so a step that saves nothing is not taken.
pub fn narrowest_up_to(widths: &[u64; 4], level: GroupScale) -> (r: GroupScale)
    ensures
        r == scale_at_level(narrowest_level(widths@, level_of(level))),
        level_of(r) == narrowest_level(widths@, level_of(level)),
        level_of(r) <= level_of(level),
        forall|j: int| 0 <= j <= level_of(level) ==> widths@[level_of(r)] <= #[trigger] widths@[j],
{
    proof {
        lemma_narrowest_level(widths@, level_of(level));
    }
    let top = level.index();
    let mut best: usize = 0;
    let mut s: usize = 1;
    while s <= top
        invariant
            1 <= s <= top + 1,
            top <= 3,
            best == narrowest_level(widths@, s - 1),
            best < s,
        decreases top + 1 - s,
    {
        if widths[s] < widths[best] {
            best = s;
        }
        s = s + 1;
    }
    GroupScale::from_index(best)
}

/// Group `j` is handled before group `i`: by priority, the least important
/// first and the rightmost first among equals (`descending`), or the most
/// important first and the leftmost first among equals.
pub open spec fn precedes(p: Seq<u8>, j: int, i: int, descending: bool) -> bool {
    if descending {
        p[j] > p[i] || (p[j] == p[i] && j > i)
    } else {
        p[j] < p[i] || (p[j] == p[i] && j < i)
    }
}

/// How many of the first `upto` groups are handled before group `i`.
pub open spec fn count_preceding(p: Seq<u8>, i: int, descending: bool, upto: int) -> int
    decreases upto,
{
    if upto <= 0 {
        0
    } else {
        count_preceding(p, i, descending, upto - 1) + if precedes(p, upto - 1, i, descending) {
            1int
        } else {
            0int
        }
    }
}

/// Group `i`'s place in the handling order.
pub open spec fn rank(p: Seq<u8>, i: int, descending: bool) -> int {
    count_preceding(p, i, descending, p.len() as int)
}

proof fn lemma_count_bounds(p: Seq<u8>, i: int, descending: bool, upto: int)
    requires
        0 <= upto <= p.len(),
        0 <= i < p.len(),
    ensures
        0 <= count_preceding(p, i, descending, upto) <= upto - (if i < upto {
            1int
        } else {
            0int
        }),
    decreases upto,
{
    if upto > 0 {
        lemma_count_bounds(p, i, descending, upto - 1);
    }
}

proof fn lemma_count_monotone(p: Seq<u8>, a: int, b: int, descending: bool, upto: int)
    requires
        0 <= upto <= p.len(),
        0 <= a < p.len(),
        0 <= b < p.len(),
        precedes(p, b, a, descending),
    ensures
        count_preceding(p, b, descending, upto) + (if b < upto {
            1int
        } else {
            0int
        }) <= count_preceding(p, a, descending, upto),
    decreases upto,
{
    if upto > 0 {
        lemma_count_monotone(p, a, b, descending, upto - 1);
    }
}

/// A group handled before another has a smaller rank; ranks are below the
/// number of groups.
pub proof fn lemma_rank_order(p: Seq<u8>, a: int, b: int, descending: bool)
    requires
        0 <= a < p.len(),
        0 <= b < p.len(),
    ensures
        0 <= rank(p, a, descending) < p.len(),
        precedes(p, b, a, descending) ==> rank(p, b, descending) < rank(p, a, descending),
        a != b ==> rank(p, a, descending) != rank(p, b, descending),
{
    lemma_count_bounds(p, a, descending, p.len() as int);
    lemma_count_bounds(p, b, descending, p.len() as int);
    if precedes(p, b, a, descending) {
        lemma_count_monotone(p, a, b, descending, p.len() as int);
    }
    if a != b && !precedes(p, b, a, descending) {
        assert(precedes(p, a, b, descending));
        lemma_count_monotone(p, b, a, descending, p.len() as int);
    }
}

fn ranks(p: &Vec<u8>, descending: bool) -> (r: Vec<usize>)
    ensures
        r@.len() == p@.len(),
        forall|i: int| 0 <= i < p@.len() ==> #[trigger] r@[i] == rank(p@, i, descending),
{
    let n = p.len();
    let mut out: Vec<usize> = Vec::new();
    let mut i: usize = 0;
    while i < n
        invariant
            n == p@.len(),
            i <= n,
            out@.len() == i,
            forall|k: int| 0 <= k < i ==> #[trigger] out@[k] == rank(p@, k, descending),
        decreases n - i,
    {
        let mut count: usize = 0;
        let mut j: usize = 0;
        while j < n
            invariant
                n == p@.len(),
                i < n,
                j <= n,
                count == count_preceding(p@, i as int, descending, j as int),
                count <= j,
            decreases n - j,
        {
            let before = if descending {
                p[j] > p[i] || (p[j] == p[i] && j > i)
            } else {
                p[j] < p[i] || (p[j] == p[i] && j < i)
            };
            if before {
                count = count + 1;
            }
            j = j + 1;
        }
        out.push(count);
        i = i + 1;
    }
    out
}

/// A smaller rank means handled earlier.
pub proof fn lemma_rank_precedes(p: Seq<u8>, a: int, b: int, descending: bool)
    requires
        0 <= a < p.len(),
        0 <= b < p.len(),
        rank(p, a, descending) < rank(p, b, descending),
    ensures
        precedes(p, a, b, descending),
{
    lemma_rank_order(p, a, b, descending);
    if !precedes(p, a, b, descending) {
        assert(a != b);
        assert(precedes(p, b, a, descending));
    }
}

/// Some group has rank `k`.
pub open spec fn has_rank(p: Seq<u8>, k: int, descending: bool) -> bool {
    exists|i: int| 0 <= i < p.len() && rank(p, i, descending) == k
}

/// The group with rank `k`.
pub open spec fn at_rank(p: Seq<u8>, k: int, descending: bool) -> int {
    choose|i: int| 0 <= i < p.len() && rank(p, i, descending) == k
}

/// Admission state: which groups are shown, the width they use, the
/// priority at which admission first failed, and whether it has stopped.
pub type Admission = (Seq<bool>, int, Option<u8>, bool);

/// Admitting group `i`: a group ranked below the first that failed to fit
/// ends admission; a group that does not fit is skipped; one that fits is
/// shown.
pub open spec fn admit_step(p: Seq<u8>, w: Seq<u64>, budget: int, st: Admission, i: int) -> Admission {
    let (shown, used, blocked, stopped) = st;
    if stopped {
        st
    } else if blocked matches Some(b) && p[i] > b {
        (shown, used, blocked, true)
    } else if used + w[i] > budget {
        (shown, used, if blocked is Some { blocked } else { Some(p[i]) }, false)
    } else {
        (shown.update(i, true), used + w[i], blocked, false)
    }
}

/// Admission after the groups of rank below `k`, most important first.
pub open spec fn admission(p: Seq<u8>, w: Seq<u64>, budget: int, k: int) -> Admission
    decreases k,
{
    if k <= 0 {
        (Seq::new(p.len(), |i: int| false), 0, None, false)
    } else {
        let st = admission(p, w, budget, k - 1);
        if has_rank(p, k - 1, false) {
            admit_step(p, w, budget, st, at_rank(p, k - 1, false))
        } else {
            st
        }
    }
}

/// Which groups stay on the Ribbon within `budget`.
pub open spec fn spec_shown_groups(p: Seq<u8>, w: Seq<u64>, budget: int) -> Seq<bool> {
    admission(p, w, budget, p.len() as int).0
}

proof fn lemma_admission_len(p: Seq<u8>, w: Seq<u64>, budget: int, k: int)
    ensures
        admission(p, w, budget, k).0.len() == p.len(),
        0 <= admission(p, w, budget, k).1 <= if budget > 0 { budget } else { 0 },
    decreases k,
{
    if k > 0 {
        lemma_admission_len(p, w, budget, k - 1);
    }
}

/// The groups that stay on the Ribbon fit the budget together.
pub proof fn lemma_shown_groups_fit_the_budget(p: Seq<u8>, w: Seq<u64>, budget: int)
    requires
        p.len() == w.len(),
        budget >= 0,
    ensures
        shown_width(w, spec_shown_groups(p, w, budget), p.len() as int) <= budget,
{
    lemma_admission_used(p, w, budget, p.len() as int);
    lemma_admission_len(p, w, budget, p.len() as int);
}

/// Which groups stay on the Ribbon within `budget`. Admission runs in
/// priority order; when a group does not fit, its peers at the same priority
/// may still take the remaining space, but nothing of lower priority can
/// leapfrog it.
pub fn shown_groups(priorities: &Vec<u8>, widths: &Vec<u64>, budget: u64) -> (r: Vec<bool>)
    requires
        priorities@.len() == widths@.len(),
    ensures
        r@ == spec_shown_groups(priorities@, widths@, budget as int),
{
    let n = priorities.len();
    let rk = ranks(priorities, false);
    let mut shown: Vec<bool> = Vec::new();
    let mut z: usize = 0;
    while z < n
        invariant
            z <= n,
            shown@ == Seq::new(z as nat, |i: int| false),
        decreases n - z,
    {
        shown.push(false);
        z = z + 1;
    }
    let mut used: u64 = 0;
    let mut blocked: Option<u8> = None;
    let mut stopped = false;
    let mut k: usize = 0;
    proof {
        assert(shown@ =~= admission(priorities@, widths@, budget as int, 0).0);
    }
    while k < n
        invariant
            n == priorities@.len(),
            n == widths@.len(),
            rk@.len() == n,
            forall|i: int| 0 <= i < n ==> #[trigger] rk@[i] == rank(priorities@, i, false),
            k <= n,
            (shown@, used as int, blocked, stopped) == admission(
                priorities@,
                widths@,
                budget as int,
                k as int,
            ),
            shown@.len() == n,
            used <= budget,
        decreases n - k,
    {
        let mut i: usize = 0;
        let mut found: usize = n;
        while i < n
            invariant
                n == rk@.len(),
                i <= n,
                found == n || (found < n && rk@[found as int] == k),
                found == n ==> forall|j: int| 0 <= j < i ==> rk@[j] != k,
            ensures
                found == n || (found < n && rk@[found as int] == k),
                found == n ==> forall|j: int| 0 <= j < n ==> rk@[j] != k,
            decreases n - i,
        {
            if rk[i] == k {
                found = i;
                break;
            }
            i = i + 1;
        }
        let ghost st = (shown@, used as int, blocked, stopped);
        if found < n {
            proof {
                assert(has_rank(priorities@, k as int, false));
                let c = at_rank(priorities@, k as int, false);
                lemma_rank_order(priorities@, c, found as int, false);
                assert(c == found);
            }
            if !stopped {
                let over = match blocked {
                    Some(b) => priorities[found] > b,
                    None => false,
                };
                if over {
                    stopped = true;
                } else if widths[found] > budget - used {
                    if blocked.is_none() {
                        blocked = Some(priorities[found]);
                    }
                } else {
                    shown.set(found, true);
                    used = used + widths[found];
                }
            }
        } else {
            proof {
                assert forall|j: int| 0 <= j < n implies rank(priorities@, j, false) != k by {
                    assert(rk@[j] == rank(priorities@, j, false));
                }
                assert(!has_rank(priorities@, k as int, false));
            }
        }
        proof {
            lemma_admission_len(priorities@, widths@, budget as int, k + 1);
        }
        k = k + 1;
    }
    shown
}

/// What admission keeps after the groups of rank below `k`: shown groups
/// were handled; a handled group left out is behind a failure no more
/// important than it (or admission stopped); no handled group left out is
/// more important than a shown one; and the first failure's priority is no
/// larger than that of any group still to come.
proof fn lemma_admission_invariant(p: Seq<u8>, w: Seq<u64>, budget: int, k: int)
    requires
        0 <= k <= p.len(),
        p.len() == w.len(),
    ensures
        admission(p, w, budget, k).0.len() == p.len(),
        forall|i: int|
            0 <= i < p.len() && #[trigger] admission(p, w, budget, k).0[i] ==> rank(p, i, false) < k,
        forall|a: int|
            0 <= a < p.len() && rank(p, a, false) < k && !#[trigger] admission(p, w, budget, k).0[a]
                ==> admission(p, w, budget, k).3 || (admission(p, w, budget, k).2 matches Some(x)
                && x <= p[a]),
        forall|a: int, b: int|
            0 <= a < p.len() && 0 <= b < p.len() && rank(p, a, false) < k && !#[trigger] admission(
                p,
                w,
                budget,
                k,
            ).0[a] && #[trigger] admission(p, w, budget, k).0[b] ==> p[a] >= p[b],
        admission(p, w, budget, k).2 matches Some(x) ==> forall|i: int|
            0 <= i < p.len() && rank(p, i, false) >= k ==> x <= #[trigger] p[i],
    decreases k,
{
    lemma_admission_len(p, w, budget, k);
    if k > 0 {
        lemma_admission_invariant(p, w, budget, k - 1);
        let st = admission(p, w, budget, k - 1);
        let (sh, used, bl, stop) = st;
        let now = admission(p, w, budget, k);
        if has_rank(p, k - 1, false) {
            let c = at_rank(p, k - 1, false);
            assert(0 <= c < p.len() && rank(p, c, false) == k - 1);
            assert(now == admit_step(p, w, budget, st, c));
            assert forall|i: int| 0 <= i < p.len() && rank(p, i, false) >= k implies p[c] <= p[i] by {
                lemma_rank_precedes(p, c, i, false);
            }
            assert forall|b: int| 0 <= b < p.len() && rank(p, b, false) < k - 1 implies p[b] <= p[c] by {
                lemma_rank_precedes(p, b, c, false);
            }
            if bl is Some {
                assert(bl->0 <= p[c]);
            }
            assert forall|i: int| 0 <= i < p.len() && #[trigger] now.0[i] implies rank(p, i, false) < k by {
                if i != c {
                    assert(now.0[i] == sh[i]);
                }
            }
            assert forall|a: int|
                0 <= a < p.len() && rank(p, a, false) < k && !#[trigger] now.0[a] implies now.3 || (
                now.2 matches Some(x) && x <= p[a]) by {
                if a != c {
                    lemma_rank_order(p, a, c, false);
                    assert(now.0[a] == sh[a]);
                    assert(rank(p, a, false) < k - 1);
                }
            }
            assert forall|a: int, b: int|
                0 <= a < p.len() && 0 <= b < p.len() && rank(p, a, false) < k && !#[trigger] now.0[a]
                    && #[trigger] now.0[b] implies p[a] >= p[b] by {
                if a != c && b != c {
                    lemma_rank_order(p, a, c, false);
                    assert(now.0[a] == sh[a]);
                    assert(now.0[b] == sh[b]);
                    assert(rank(p, a, false) < k - 1);
                } else if a == c {
                    assert(now.0[b] == sh[b]);
                    assert(rank(p, b, false) < k - 1);
                } else {
                    lemma_rank_order(p, a, c, false);
                    assert(now.0[a] == sh[a]);
                    assert(rank(p, a, false) < k - 1);
                }
            }
        } else {
            assert(now == st);
            assert forall|i: int| 0 <= i < p.len() implies rank(p, i, false) != k - 1 by {}
        }
    } else {
        assert forall|i: int| 0 <= i < p.len() implies rank(p, i, false) >= 0 by {
            lemma_rank_order(p, i, i, false);
        }
    }
}

/// A group in the More menu never outranks a group that stayed visible.
pub proof fn lemma_hidden_never_outranks_shown(p: Seq<u8>, w: Seq<u64>, budget: int, a: int, b: int)
    requires
        p.len() == w.len(),
        0 <= a < p.len(),
        0 <= b < p.len(),
        !spec_shown_groups(p, w, budget)[a],
        spec_shown_groups(p, w, budget)[b],
    ensures
        p[a] >= p[b],
{
    lemma_admission_invariant(p, w, budget, p.len() as int);
    lemma_rank_order(p, a, b, false);
}

/// The ladder steps group `i` (ranked `r` of `n` in stepping order) has
/// taken after `t` steps: step `(L - 1) * n + r` asks it for level `L`.
pub open spec fn applied_level(n: int, r: int, t: int) -> int {
    if 2 * n + r < t {
        3
    } else if n + r < t {
        2
    } else if r < t {
        1
    } else {
        0
    }
}

/// Group `i`'s scale after `t` steps.
pub open spec fn scale_after(p: Seq<u8>, w: Seq<[u64; 4]>, i: int, t: int) -> GroupScale {
    let l = applied_level(p.len() as int, rank(p, i, true), t);
    if l == 0 {
        GroupScale::Large
    } else {
        scale_at_level(narrowest_level(w[i]@, l))
    }
}

/// Every group's scale after `t` steps.
pub open spec fn scales_after(p: Seq<u8>, w: Seq<[u64; 4]>, t: int) -> Seq<GroupScale> {
    Seq::new(p.len(), |i: int| scale_after(p, w, i, t))
}

/// The width of the first `k` groups at the given scales.
pub open spec fn total_width(w: Seq<[u64; 4]>, scales: Seq<GroupScale>, k: int) -> int
    decreases k,
{
    if k <= 0 {
        0
    } else {
        total_width(w, scales, k - 1) + w[k - 1]@[level_of(scales[k - 1])]
    }
}

/// The first number of steps, from `t` on, after which the row fits.
pub open spec fn first_fit(p: Seq<u8>, w: Seq<[u64; 4]>, budget: int, t: int) -> Option<int>
    decreases 3 * p.len() + 1 - t,
{
    if t > 3 * p.len() || t < 0 {
        None
    } else if total_width(w, scales_after(p, w, t), p.len() as int) <= budget {
        Some(t)
    } else {
        first_fit(p, w, budget, t + 1)
    }
}

/// Every group's Collapsed width.
pub open spec fn collapsed_widths(w: Seq<[u64; 4]>) -> Seq<u64> {
    Seq::new(w.len(), |i: int| w[i]@[3])
}

/// The plan: the first step after which the row fits, every group shown;
/// or, when even the last step does not fit, the More menu takes groups
/// behind a reserved `more` width.
pub open spec fn spec_plan(p: Seq<u8>, w: Seq<[u64; 4]>, budget: int, more: int) -> (Seq<GroupScale>, Seq<bool>) {
    match first_fit(p, w, budget, 0) {
        Some(t) => (scales_after(p, w, t), Seq::new(p.len(), |i: int| true)),
        None => (
            scales_after(p, w, 3 * p.len() as int),
            spec_shown_groups(
                p,
                collapsed_widths(w),
                if budget > more {
                    budget - more
                } else {
                    0
                },
            ),
        ),
    }
}

fn total(widths: &Vec<[u64; 4]>, scales: &Vec<GroupScale>) -> (r: u128)
    requires
        widths@.len() == scales@.len(),
    ensures
        r == total_width(widths@, scales@, scales@.len() as int),
{
    let n = scales.len();
    let mut acc: u128 = 0;
    let mut i: usize = 0;
    while i < n
        invariant
            n == scales@.len(),
            n == widths@.len(),
            i <= n,
            acc == total_width(widths@, scales@, i as int),
            acc <= i * 0xffff_ffff_ffff_ffffu128,
        decreases n - i,
    {
        let x = widths[i][scales[i].index()];
        proof {
            assert((i + 1) * 0xffff_ffff_ffff_ffffu128 == i * 0xffff_ffff_ffff_ffffu128
                + 0xffff_ffff_ffff_ffffu128) by (nonlinear_arith);
            assert((i + 1) * 0xffff_ffff_ffff_ffffu128 <= 0x1_0000_0000_0000_0000
                * 0xffff_ffff_ffff_ffffu128) by (nonlinear_arith)
                requires
                    i + 1 <= 0x1_0000_0000_0000_0000,
            ;
        }
        acc = acc + x as u128;
        i = i + 1;
    }
    acc
}

proof fn lemma_step_levels(n: int, r: int, k: int, l: int, t: int)
    requires
        0 <= r < n,
        0 <= k < n,
        1 <= l <= 3,
        t == (l - 1) * n + k,
    ensures
        applied_level(n, r, t + 1) == if r == k {
            l
        } else {
            applied_level(n, r, t)
        },
{
    if l == 1 {
        assert(t == k) by (nonlinear_arith)
            requires
                l == 1,
                t == (l - 1) * n + k,
        ;
    } else if l == 2 {
        assert(t == n + k) by (nonlinear_arith)
            requires
                l == 2,
                t == (l - 1) * n + k,
        ;
    } else {
        assert(t == 2 * n + k) by (nonlinear_arith)
            requires
                l == 3,
                t == (l - 1) * n + k,
        ;
    }
}

/// Chooses each group's scale so the tab fits `budget`. Groups step down
/// one level at a time, lowest priority first (rightmost first among
/// equals), and the whole row is retried after every step. A level that
/// would not make a group narrower is skipped for that group. When even the
/// narrowest row overflows, the More menu absorbs whole groups behind a
/// reserved `more_width`.
pub fn plan(priorities: &Vec<u8>, widths: &Vec<[u64; 4]>, budget: u64, more_width: u64) -> (r: TabPlan)
    requires
        priorities@.len() == widths@.len(),
    ensures
        r.scales@ == spec_plan(priorities@, widths@, budget as int, more_width as int).0,
        r.shown@ == spec_plan(priorities@, widths@, budget as int, more_width as int).1,
{
    let ghost p = priorities@;
    let ghost w = widths@;
    let n = priorities.len();
    let rk = ranks(priorities, true);
    let mut scales: Vec<GroupScale> = Vec::new();
    let mut all_shown: Vec<bool> = Vec::new();
    let mut z: usize = 0;
    while z < n
        invariant
            z <= n,
            scales@ == Seq::new(z as nat, |i: int| GroupScale::Large),
            all_shown@ == Seq::new(z as nat, |i: int| true),
        decreases n - z,
    {
        scales.push(GroupScale::Large);
        all_shown.push(true);
        z = z + 1;
    }
    proof {
        assert forall|i: int| 0 <= i < n implies scale_after(p, w, i, 0) == GroupScale::Large by {
            lemma_rank_order(p, i, i, true);
        }
        assert(scales@ =~= scales_after(p, w, 0));
    }
    if total(widths, &scales) <= budget as u128 {
        return TabPlan { scales, shown: all_shown };
    }
    let ghost mut t: int = 0;
    let mut level: usize = 1;
    while level <= 3
        invariant
            p == priorities@,
            w == widths@,
            n == p.len(),
            n == w.len(),
            rk@.len() == n,
            forall|i: int| 0 <= i < n ==> #[trigger] rk@[i] == rank(p, i, true),
            1 <= level <= 4,
            t == (level - 1) * n,
            scales@ == scales_after(p, w, t),
            all_shown@ == Seq::new(n as nat, |i: int| true),
            first_fit(p, w, budget as int, 0) == first_fit(p, w, budget as int, t + 1),
            total_width(w, scales_after(p, w, t), n as int) > budget,
        decreases 4 - level,
    {
        let mut k: usize = 0;
        while k < n
            invariant
                p == priorities@,
                w == widths@,
                n == p.len(),
                n == w.len(),
                rk@.len() == n,
                forall|i: int| 0 <= i < n ==> #[trigger] rk@[i] == rank(p, i, true),
                1 <= level <= 3,
                k <= n,
                t == (level - 1) * n + k,
                scales@ == scales_after(p, w, t),
                all_shown@ == Seq::new(n as nat, |i: int| true),
                first_fit(p, w, budget as int, 0) == first_fit(p, w, budget as int, t + 1),
                total_width(w, scales_after(p, w, t), n as int) > budget,
            decreases n - k,
        {
            let target = GroupScale::from_index(level);
            let mut i: usize = 0;
            while i < n
                invariant
                    p == priorities@,
                    w == widths@,
                    n == p.len(),
                    n == w.len(),
                    rk@.len() == n,
                    forall|j: int| 0 <= j < n ==> #[trigger] rk@[j] == rank(p, j, true),
                    i <= n,
                    k < n,
                    1 <= level <= 3,
                    level_of(target) == level,
                    t == (level - 1) * n + k,
                    scales@.len() == n,
                    forall|j: int|
                        0 <= j < n ==> #[trigger] scales@[j] == if j < i && rk@[j] == k {
                            scale_after(p, w, j, t + 1)
                        } else {
                            scale_after(p, w, j, t)
                        },
                decreases n - i,
            {
                if rk[i] == k {
                    let s = narrowest_up_to(&widths[i], target);
                    proof {
                        lemma_step_levels(n as int, rank(p, i as int, true), k as int, level as int, t);
                        lemma_rank_order(p, i as int, i as int, true);
                        lemma_narrowest_level(w[i as int]@, level as int);
                    }
                    scales.set(i, s);
                }
                i = i + 1;
            }
            proof {
                assert forall|j: int| 0 <= j < n implies #[trigger] scales@[j] == scale_after(p, w, j, t + 1) by {
                    lemma_rank_order(p, j, j, true);
                    lemma_step_levels(n as int, rank(p, j, true), k as int, level as int, t);
                }
                assert(scales@ =~= scales_after(p, w, t + 1));
            }
            proof {
                t = t + 1;
                assert(t <= 3 * n) by (nonlinear_arith)
                    requires
                        t == (level - 1) * n + k + 1,
                        level <= 3,
                        k < n,
                ;
            }
            if total(widths, &scales) <= budget as u128 {
                return TabPlan { scales, shown: all_shown };
            }
            k = k + 1;
        }
        proof {
            assert(t == level * n) by (nonlinear_arith)
                requires
                    t == (level - 1) * n + n,
            ;
        }
        level = level + 1;
    }
    let mut collapsed: Vec<u64> = Vec::new();
    let mut c: usize = 0;
    proof {
        assert(t == 3 * n) by (nonlinear_arith)
            requires
                t == (level - 1) * n,
                level == 4,
        ;
    }
    while c < n
        invariant
            w == widths@,
            n == w.len(),
            c <= n,
            collapsed@ == collapsed_widths(w).subrange(0, c as int),
        decreases n - c,
    {
        collapsed.push(widths[c][3]);
        assert(collapsed@ =~= collapsed_widths(w).subrange(0, c as int + 1));
        c = c + 1;
    }
    assert(collapsed@ =~= collapsed_widths(w));
    let room = if budget > more_width {
        budget - more_width
    } else {
        0
    };
    let shown = shown_groups(priorities, &collapsed, room);
    TabPlan { scales, shown }
}

/// The width of the shown groups among the first `k`.
pub open spec fn shown_width(w: Seq<u64>, shown: Seq<bool>, k: int) -> int
    decreases k,
{
    if k <= 0 {
        0
    } else {
        shown_width(w, shown, k - 1) + if shown[k - 1] {
            w[k - 1] as int
        } else {
            0int
        }
    }
}

proof fn lemma_shown_width_update(w: Seq<u64>, shown: Seq<bool>, c: int, k: int)
    requires
        0 <= c < shown.len(),
        !shown[c],
        0 <= k <= shown.len(),
    ensures
        shown_width(w, shown.update(c, true), k) == shown_width(w, shown, k) + if c < k {
            w[c] as int
        } else {
            0int
        },
    decreases k,
{
    if k > 0 {
        lemma_shown_width_update(w, shown, c, k - 1);
    }
}

/// Admission uses exactly the width of the groups it shows.
proof fn lemma_admission_used(p: Seq<u8>, w: Seq<u64>, budget: int, k: int)
    requires
        0 <= k <= p.len(),
        p.len() == w.len(),
    ensures
        admission(p, w, budget, k).1 == shown_width(w, admission(p, w, budget, k).0, p.len() as int),
    decreases k,
{
    lemma_admission_len(p, w, budget, k);
    if k == 0 {
        let sh = admission(p, w, budget, 0).0;
        assert forall|j: int| 0 <= j <= p.len() implies shown_width(w, sh, j) == 0 by {
            lemma_shown_width_zero(w, sh, j);
        }
    } else {
        lemma_admission_used(p, w, budget, k - 1);
        lemma_admission_invariant(p, w, budget, k - 1);
        let st = admission(p, w, budget, k - 1);
        if has_rank(p, k - 1, false) {
            let c = at_rank(p, k - 1, false);
            if !st.3 && !(st.2 matches Some(b) && p[c] > b) && !(st.1 + w[c] > budget) {
                assert(!st.0[c]);
                lemma_shown_width_update(w, st.0, c, p.len() as int);
            }
        }
    }
}

proof fn lemma_shown_width_zero(w: Seq<u64>, sh: Seq<bool>, j: int)
    requires
        forall|i: int| 0 <= i < sh.len() ==> !sh[i],
        j <= sh.len(),
    ensures
        shown_width(w, sh, j) == 0,
    decreases j,
{
    if j > 0 {
        lemma_shown_width_zero(w, sh, j - 1);
    }
}

proof fn lemma_total_below_collapsed(p: Seq<u8>, w: Seq<[u64; 4]>, k: int)
    requires
        p.len() == w.len(),
        0 <= k <= p.len(),
    ensures
        total_width(w, scales_after(p, w, 3 * p.len() as int), k) <= shown_width(
            collapsed_widths(w),
            Seq::new(p.len(), |i: int| true),
            k,
        ),
    decreases k,
{
    if k > 0 {
        lemma_total_below_collapsed(p, w, k - 1);
        let i = k - 1;
        lemma_rank_order(p, i, i, true);
        lemma_narrowest_level(w[i]@, 3);
        assert(applied_level(p.len() as int, rank(p, i, true), 3 * p.len() as int) == 3);
        assert(level_of(scale_at_level(narrowest_level(w[i]@, 3))) == narrowest_level(w[i]@, 3));
    }
}

proof fn lemma_first_fit(p: Seq<u8>, w: Seq<[u64; 4]>, budget: int, t: int)
    ensures
        first_fit(p, w, budget, t) matches Some(f) ==> t <= f <= 3 * p.len() && total_width(
            w,
            scales_after(p, w, f),
            p.len() as int,
        ) <= budget,
    decreases 3 * p.len() + 1 - t,
{
    if 0 <= t <= 3 * p.len() && total_width(w, scales_after(p, w, t), p.len() as int) > budget {
        lemma_first_fit(p, w, budget, t + 1);
    }
}

/// When every group stays on the Ribbon, the planned row fits the budget.
pub proof fn lemma_plan_fits_when_all_shown(p: Seq<u8>, w: Seq<[u64; 4]>, budget: int, more: int)
    requires
        p.len() == w.len(),
        budget >= 0,
        more >= 0,
        forall|i: int| 0 <= i < p.len() ==> #[trigger] spec_plan(p, w, budget, more).1[i],
    ensures
        total_width(w, spec_plan(p, w, budget, more).0, p.len() as int) <= budget,
{
    lemma_first_fit(p, w, budget, 0);
    if first_fit(p, w, budget, 0) is None {
        let room = if budget > more {
            budget - more
        } else {
            0
        };
        let cw = collapsed_widths(w);
        lemma_admission_len(p, cw, room, p.len() as int);
        lemma_admission_used(p, cw, room, p.len() as int);
        let sh = spec_shown_groups(p, cw, room);
        assert(spec_plan(p, w, budget, more).1 == sh);
        assert forall|i: int| 0 <= i < p.len() implies sh[i] by {
            assert(spec_plan(p, w, budget, more).1[i]);
        }
        assert(sh =~= Seq::new(p.len(), |i: int| true));
        lemma_total_below_collapsed(p, w, p.len() as int);
    }
}

/// Group `i` has taken every step of the ladder.
pub open spec fn fully_stepped(w: Seq<[u64; 4]>, scales: Seq<GroupScale>, i: int) -> bool {
    scales[i] == scale_at_level(narrowest_level(w[i]@, 3))
}

/// The More menu takes a group only once every group has taken every step.
pub proof fn lemma_more_only_after_every_step(p: Seq<u8>, w: Seq<[u64; 4]>, budget: int, more: int, h: int)
    requires
        p.len() == w.len(),
        0 <= h < p.len(),
        !spec_plan(p, w, budget, more).1[h],
    ensures
        forall|i: int| 0 <= i < p.len() ==> fully_stepped(w, spec_plan(p, w, budget, more).0, i),
{
    assert forall|i: int| 0 <= i < p.len() implies fully_stepped(w, spec_plan(p, w, budget, more).0, i) by {
        lemma_rank_order(p, i, i, true);
    }
}

/// The ladder of every group narrows strictly at each step.
pub open spec fn strictly_narrowing(w: Seq<[u64; 4]>) -> bool {
    forall|i: int|
        0 <= i < w.len() ==> #[trigger] w[i]@[0] > w[i]@[1] && w[i]@[1] > w[i]@[2] && w[i]@[2]
            > w[i]@[3]
}

/// With strictly narrowing ladders, a higher-priority group is never
/// smaller than a lower-priority one.
pub proof fn lemma_plan_respects_priority(p: Seq<u8>, w: Seq<[u64; 4]>, budget: int, more: int, a: int, b: int)
    requires
        p.len() == w.len(),
        strictly_narrowing(w),
        0 <= a < p.len(),
        0 <= b < p.len(),
        p[a] < p[b],
    ensures
        level_of(spec_plan(p, w, budget, more).0[a]) <= level_of(spec_plan(p, w, budget, more).0[b]),
{
    lemma_first_fit(p, w, budget, 0);
    lemma_rank_order(p, a, b, true);
    lemma_rank_order(p, b, a, true);
    let t = match first_fit(p, w, budget, 0) {
        Some(f) => f,
        None => 3 * p.len() as int,
    };
    let n = p.len() as int;
    let la = applied_level(n, rank(p, a, true), t);
    let lb = applied_level(n, rank(p, b, true), t);
    assert(la <= lb);
    assert(w[a]@[0] > w[a]@[1] && w[a]@[1] > w[a]@[2] && w[a]@[2] > w[a]@[3]);
    assert(w[b]@[0] > w[b]@[1] && w[b]@[1] > w[b]@[2] && w[b]@[2] > w[b]@[3]);
    assert(narrowest_level(w[a]@, 0) == 0);
    assert(narrowest_level(w[a]@, 1) == 1);
    assert(narrowest_level(w[a]@, 2) == 2);
    assert(narrowest_level(w[a]@, 3) == 3);
    assert(narrowest_level(w[b]@, 0) == 0);
    assert(narrowest_level(w[b]@, 1) == 1);
    assert(narrowest_level(w[b]@, 2) == 2);
    assert(narrowest_level(w[b]@, 3) == 3);
}

/// The plan keeps every group at Large and on the Ribbon exactly when the
/// Large row fits the budget.
pub proof fn lemma_plan_full_iff_large_fits(p: Seq<u8>, w: Seq<[u64; 4]>, budget: int, more: int)
    requires
        p.len() == w.len(),
        budget >= 0,
        more >= 0,
    ensures
        plan_is_full(spec_plan(p, w, budget, more).0, spec_plan(p, w, budget, more).1) <==> total_width(
            w,
            Seq::new(p.len(), |i: int| GroupScale::Large),
            p.len() as int,
        ) <= budget,
{
    let large = Seq::new(p.len(), |i: int| GroupScale::Large);
    assert forall|i: int| 0 <= i < p.len() implies scale_after(p, w, i, 0) == GroupScale::Large by {
        lemma_rank_order(p, i, i, true);
    }
    assert(scales_after(p, w, 0) =~= large);
    let pl = spec_plan(p, w, budget, more);
    let room = if budget > more {
        budget - more
    } else {
        0
    };
    lemma_admission_len(p, collapsed_widths(w), room, p.len() as int);
    assert(pl.1.len() == p.len());
    if plan_is_full(pl.0, pl.1) {
        assert forall|i: int| 0 <= i < p.len() implies #[trigger] spec_plan(p, w, budget, more).1[i] by {
            assert(pl.1[i]);
        }
        lemma_plan_fits_when_all_shown(p, w, budget, more);
        assert(pl.0 =~= large);
    }
}

/// The workflow tabs of the Ribbon.
#[derive(Clone, Copy, Debug, PartialEq, Eq, Structural)]
pub enum WorkflowTab {
    Data,
    Process,
    Analyze,
    Figure,
    Arrange,
    View,
}

/// The groups of each tab, left to right, following the tab's workflow.
pub open spec fn tab_groups(tab: WorkflowTab) -> Seq<Seq<char>> {
    match tab {
        WorkflowTab::Data => seq!["Import"@, "Build"@, "Export"@],
        WorkflowTab::Process => seq!["Processing"@, "Correct"@, "Transform"@, "Recipes"@],
        WorkflowTab::Analyze => seq![
            "Range"@,
            "XPS"@,
            "Extract"@,
            "Regions"@,
            "Peaks"@,
            "Review"@,
            "Overlay"@,
            "Peak Fit"@,
            "Curve Fit"@,
            "Statistics"@,
            "Interpret"@,
        ],
        WorkflowTab::Figure => seq!["Create"@, "Chart"@, "Data"@, "Style"@, "Canvas"@, "Output"@],
        WorkflowTab::Arrange => seq![
            "Layout"@,
            "Align"@,
            "Distribute"@,
            "Order"@,
            "Guides"@,
            "Annotate"@,
            "Object"@,
            "Canvas"@,
        ],
        WorkflowTab::View => seq!["Navigate"@, "Display"@],
    }
}

/// The position of `group` among its tab's groups from `from` on.
pub open spec fn group_position(names: Seq<Seq<char>>, group: Seq<char>, from: int) -> Option<int>
    decreases names.len() - from,
{
    if from < 0 || from >= names.len() {
        None
    } else if names[from] == group {
        Some(from)
    } else {
        group_position(names, group, from + 1)
    }
}

/// Left-to-right place of a group on its tab; `u8::MAX` for a group the tab
/// does not list.
pub open spec fn spec_group_order(tab: WorkflowTab, group: Seq<char>) -> u8 {
    match group_position(tab_groups(tab), group, 0) {
        Some(i) => i as u8,
        None => u8::MAX,
    }
}

fn tab_group_names(tab: WorkflowTab) -> (r: Vec<&'static str>)
    ensures
        r@.len() == tab_groups(tab).len(),
        forall|i: int| 0 <= i < r@.len() ==> #[trigger] r@[i]@ == tab_groups(tab)[i],
{
    match tab {
        WorkflowTab::Data => vec!["Import", "Build", "Export"],
        WorkflowTab::Process => vec!["Processing", "Correct", "Transform", "Recipes"],
        WorkflowTab::Analyze => vec![
            "Range",
            "XPS",
            "Extract",
            "Regions",
            "Peaks",
            "Review",
            "Overlay",
            "Peak Fit",
            "Curve Fit",
            "Statistics",
            "Interpret",
        ],
        WorkflowTab::Figure => vec!["Create", "Chart", "Data", "Style", "Canvas", "Output"],
        WorkflowTab::Arrange => vec![
            "Layout",
            "Align",
            "Distribute",
            "Order",
            "Guides",
            "Annotate",
            "Object",
            "Canvas",
        ],
        WorkflowTab::View => vec!["Navigate", "Display"],
    }
}

/// Left-to-right order of a Ribbon group on its tab.
pub fn group_order(tab: WorkflowTab, group: &str) -> (r: u8)
    ensures
        r == spec_group_order(tab, group@),
{
    let names = tab_group_names(tab);
    let wanted = crate::text::literal(group);
    let mut i: usize = 0;
    while i < names.len()
        invariant
            names@.len() == tab_groups(tab).len(),
            names@.len() <= 11,
            forall|k: int| 0 <= k < names@.len() ==> #[trigger] names@[k]@ == tab_groups(tab)[k],
            wanted@ == group@,
            i <= names@.len(),
            group_position(tab_groups(tab), group@, 0) == group_position(
                tab_groups(tab),
                group@,
                i as int,
            ),
        decreases names.len() - i,
    {
        if crate::text::eq_str(&wanted, names[i]) {
            return i as u8;
        }
        i = i + 1;
    }
    u8::MAX
}


/// How many commands of a group carry glyph `g`.
pub open spec fn glyph_count(icons: Seq<Option<char>>, g: char, upto: int) -> nat
    decreases upto,
{
    if upto <= 0 {
        0
    } else {
        glyph_count(icons, g, upto - 1) + if icons[upto - 1] == Some(g) {
            1nat
        } else {
            0nat
        }
    }
}

/// Whether command `i`'s icon alone tells it apart within its group: it has
/// one, and no other command of the group shows the same glyph.
pub open spec fn spec_icon_identifies(icons: Seq<Option<char>>, i: int) -> bool {
    match icons[i] {
        Some(g) => glyph_count(icons, g, icons.len() as int) == 1,
        None => false,
    }
}

/// Whether command `i`'s icon alone tells it apart within its group.
pub fn icon_identifies(icons: &Vec<Option<char>>, i: usize) -> (r: bool)
    requires
        i < icons@.len(),
    ensures
        r == spec_icon_identifies(icons@, i as int),
{
    let g = match icons[i] {
        Some(g) => g,
        None => return false,
    };
    let mut count: usize = 0;
    let mut j: usize = 0;
    while j < icons.len()
        invariant
            j <= icons@.len(),
            count == glyph_count(icons@, g, j as int),
            count <= j,
        decreases icons.len() - j,
    {
        let same = match icons[j] {
            Some(h) => h == g,
            None => false,
        };
        if same {
            count = count + 1;
        }
        j = j + 1;
    }
    count == 1
}

/// One command of a group with the scale it is painted at.
#[derive(Clone, Copy, Debug, PartialEq, Eq)]
pub struct RibbonCell {
    pub entry: usize,
    pub scale: GroupScale,
}

/// One column of a group: a single command at Large, up to two stacked
/// commands otherwise, all painted `width` wide.
#[derive(Clone, Debug, PartialEq, Eq)]
pub struct RibbonColumn {
    pub cells: Vec<RibbonCell>,
    pub width: u64,
}

/// The scale command `i` is painted at: the group's scale, except that at
/// Small a command whose icon cannot name it keeps its Medium row.
pub open spec fn cell_scale(icons: Seq<Option<char>>, scale: GroupScale, i: int) -> GroupScale {
    if scale == GroupScale::Small && !spec_icon_identifies(icons, i) {
        GroupScale::Medium
    } else {
        scale
    }
}

/// The width command `i` needs: the shared tile width at Large, its own row
/// width at Medium, one stack row otherwise.
pub open spec fn cell_width(
    icons: Seq<Option<char>>,
    medium: Seq<u64>,
    tile: u64,
    row: u64,
    scale: GroupScale,
    i: int,
) -> u64 {
    match cell_scale(icons, scale, i) {
        GroupScale::Large => tile,
        GroupScale::Medium => medium[i],
        _ => row,
    }
}

/// Commands per column at `scale`.
pub open spec fn per_column(scale: GroupScale) -> int {
    if scale == GroupScale::Large {
        1
    } else {
        2
    }
}

/// The first command of column `c`.
pub open spec fn column_start(scale: GroupScale, c: int) -> int {
    if scale == GroupScale::Large {
        c
    } else {
        2 * c
    }
}

/// One past the last command of column `c` when the group has `n` commands.
pub open spec fn column_end(scale: GroupScale, c: int, n: int) -> int {
    if column_start(scale, c) + per_column(scale) <= n {
        column_start(scale, c) + per_column(scale)
    } else {
        n
    }
}

/// How many columns `n` commands fill.
pub open spec fn column_count(scale: GroupScale, n: int) -> int {
    if scale == GroupScale::Large {
        n
    } else {
        (n + 1) / 2
    }
}

/// The widest of commands `start..end`.
pub open spec fn widest(
    icons: Seq<Option<char>>,
    medium: Seq<u64>,
    tile: u64,
    row: u64,
    scale: GroupScale,
    start: int,
    end: int,
) -> u64
    decreases end - start,
{
    if end <= start {
        0
    } else {
        let rest = widest(icons, medium, tile, row, scale, start, end - 1);
        let w = cell_width(icons, medium, tile, row, scale, end - 1);
        if w > rest {
            w
        } else {
            rest
        }
    }
}

/// Column `c` of a group as planned from its first `n` commands.
pub open spec fn column_is(
    col: RibbonColumn,
    icons: Seq<Option<char>>,
    medium: Seq<u64>,
    tile: u64,
    row: u64,
    scale: GroupScale,
    c: int,
    n: int,
) -> bool {
    let start = column_start(scale, c);
    let end = column_end(scale, c, n);
    &&& col.cells@.len() == end - start
    &&& forall|k: int|
        0 <= k < end - start ==> #[trigger] col.cells@[k] == RibbonCell {
            entry: (start + k) as usize,
            scale: cell_scale(icons, scale, start + k),
        }
    &&& col.width == widest(icons, medium, tile, row, scale, start, end)
}

/// A column that a later command does not join keeps its plan.
proof fn lemma_full_column(scale: GroupScale, c: int, i: int)
    requires
        0 <= c < column_count(scale, i + 1) - 1,
        0 <= i,
    ensures
        column_end(scale, c, i) == column_end(scale, c, i + 1),
        column_start(scale, c) + per_column(scale) <= i,
{
}

/// Command `i` joins the open last column `c`.
proof fn lemma_open_column(
    icons: Seq<Option<char>>,
    medium: Seq<u64>,
    tile: u64,
    row: u64,
    scale: GroupScale,
    c: int,
    i: int,
    last_before: RibbonColumn,
    last: RibbonColumn,
)
    requires
        0 <= c,
        0 <= i,
        c == column_count(scale, i) - 1,
        column_is(last_before, icons, medium, tile, row, scale, c, i),
        last_before.cells@.len() < per_column(scale),
        last.cells@ == last_before.cells@.push(
            RibbonCell { entry: i as usize, scale: cell_scale(icons, scale, i) },
        ),
        last.width == if cell_width(icons, medium, tile, row, scale, i) > last_before.width {
            cell_width(icons, medium, tile, row, scale, i)
        } else {
            last_before.width
        },
    ensures
        column_count(scale, i + 1) == column_count(scale, i),
        column_is(last, icons, medium, tile, row, scale, c, i + 1),
{
    let start = column_start(scale, c);
    assert(column_end(scale, c, i) == i);
    assert(column_end(scale, c, i + 1) == i + 1);
    assert(widest(icons, medium, tile, row, scale, start, i + 1) == last.width);
    assert forall|k: int| 0 <= k < i + 1 - start implies #[trigger] last.cells@[k] == RibbonCell {
        entry: (start + k) as usize,
        scale: cell_scale(icons, scale, start + k),
    } by {
        if k < i - start {
            assert(last.cells@[k] == last_before.cells@[k]);
        }
    }
}

/// Command `i` opens column `count` when no column is open.
proof fn lemma_new_column(
    icons: Seq<Option<char>>,
    medium: Seq<u64>,
    tile: u64,
    row: u64,
    scale: GroupScale,
    count: int,
    i: int,
    before: Seq<RibbonColumn>,
)
    requires
        0 <= i,
        count == before.len(),
        count == column_count(scale, i),
        forall|c: int|
            0 <= c < before.len() ==> #[trigger] column_is(
                before[c],
                icons,
                medium,
                tile,
                row,
                scale,
                c,
                i,
            ),
        !(count > 0 && before[count - 1].cells@.len() < per_column(scale)),
    ensures
        column_count(scale, i + 1) == count + 1,
        column_start(scale, count) == i,
        column_end(scale, count, i + 1) == i + 1,
        widest(icons, medium, tile, row, scale, i, i + 1) == cell_width(
            icons,
            medium,
            tile,
            row,
            scale,
            i,
        ),
{
    if count > 0 {
        assert(column_is(before[count - 1], icons, medium, tile, row, scale, count - 1, i));
    }
    assert(widest(icons, medium, tile, row, scale, i, i) == 0);
}

/// The column plan of a group at a non-Collapsed `scale`: commands fill
/// columns in order, one per column at Large and two otherwise, and each
/// column is as wide as its widest command. `icons` holds each command's
/// glyph, `medium` each command's Medium row width, `tile` the group's shared
/// tile width and `row` the height of a stack row.
pub fn columns(
    icons: &Vec<Option<char>>,
    medium: &Vec<u64>,
    tile: u64,
    row: u64,
    scale: GroupScale,
) -> (r: Vec<RibbonColumn>)
    requires
        medium@.len() == icons@.len(),
    ensures
        r@.len() == column_count(scale, icons@.len() as int),
        forall|c: int|
            0 <= c < r@.len() ==> #[trigger] column_is(
                r@[c],
                icons@,
                medium@,
                tile,
                row,
                scale,
                c,
                icons@.len() as int,
            ),
{
    let n = icons.len();
    let per: usize = if scale == GroupScale::Large {
        1
    } else {
        2
    };
    let mut out: Vec<RibbonColumn> = Vec::new();
    let mut i: usize = 0;
    while i < n
        invariant
            n == icons@.len(),
            medium@.len() == n,
            per == per_column(scale),
            i <= n,
            out@.len() == column_count(scale, i as int),
            forall|c: int|
                0 <= c < out@.len() ==> #[trigger] column_is(
                    out@[c],
                    icons@,
                    medium@,
                    tile,
                    row,
                    scale,
                    c,
                    i as int,
                ),
        decreases n - i,
    {
        let cell_level = if scale == GroupScale::Small && !icon_identifies(icons, i) {
            GroupScale::Medium
        } else {
            scale
        };
        let width = match cell_level {
            GroupScale::Large => tile,
            GroupScale::Medium => medium[i],
            _ => row,
        };
        let cell = RibbonCell { entry: i, scale: cell_level };
        assert(width == cell_width(icons@, medium@, tile, row, scale, i as int));
        let ghost before = out@;
        let count = out.len();
        let open_column = count > 0 && out[count - 1].cells.len() < per;
        if open_column {
            let mut last = out.pop().unwrap();
            proof {
                assert(before[count - 1] == last);
                assert(out@ =~= before.subrange(0, count - 1));
            }
            let ghost last_before = last;
            last.cells.push(cell);
            if width > last.width {
                last.width = width;
            }
            out.push(last);
            proof {
                lemma_open_column(icons@, medium@, tile, row, scale, count as int - 1, i as int, last_before, last);
                assert forall|c: int| 0 <= c < out@.len() implies #[trigger] column_is(
                    out@[c],
                    icons@,
                    medium@,
                    tile,
                    row,
                    scale,
                    c,
                    i as int + 1,
                ) by {
                    if c < count - 1 {
                        assert(out@[c] == before[c]);
                        assert(column_is(before[c], icons@, medium@, tile, row, scale, c, i as int));
                        lemma_full_column(scale, c, i as int);
                    }
                }
            }
        } else {
            let mut cells: Vec<RibbonCell> = Vec::new();
            cells.push(cell);
            out.push(RibbonColumn { cells, width });
            proof {
                lemma_new_column(icons@, medium@, tile, row, scale, count as int, i as int, before);
                assert forall|c: int| 0 <= c < out@.len() implies #[trigger] column_is(
                    out@[c],
                    icons@,
                    medium@,
                    tile,
                    row,
                    scale,
                    c,
                    i as int + 1,
                ) by {
                    if c < count {
                        assert(out@[c] == before[c]);
                        assert(column_is(before[c], icons@, medium@, tile, row, scale, c, i as int));
                        lemma_full_column(scale, c, i as int);
                    } else {
                        assert(out@[c].cells@ =~= seq![cell]);
                    }
                }
            }
        }
        i = i + 1;
    }
    out
}

} // verus!
