//! Font family priority: which faces a text run tries first.
//!
//! A family is a list of font names tried in order. The system UI face leads
//! the proportional family, then the icon font, then the system CJK face,
//! ahead of the portable fallbacks already in the family. The emphasized
//! family leads with the semibold faces (or the regular ones where no
//! semibold face was found) and falls back to everything proportional.
use crate::text::{eq_chars, literal, suffix_from};
use vstd::prelude::*;

verus! {

/// Which system faces were found on this machine.
#[derive(Clone, Copy, Debug, PartialEq, Eq, Structural)]
pub struct PlatformFaces {
    pub ui_regular: bool,
    pub ui_semibold: bool,
    pub cjk_regular: bool,
    pub cjk_semibold: bool,
}

pub open spec fn ui_regular_key() -> Seq<char> {
    "plotx-system-ui-regular"@
}

pub open spec fn ui_semibold_key() -> Seq<char> {
    "plotx-system-ui-semibold"@
}

pub open spec fn cjk_regular_key() -> Seq<char> {
    "plotx-system-cjk-regular"@
}

pub open spec fn cjk_semibold_key() -> Seq<char> {
    "plotx-system-cjk-semibold"@
}

pub open spec fn icon_font_key() -> Seq<char> {
    "phosphor"@
}

/// The names of a family.
pub open spec fn names(family: Seq<Vec<char>>) -> Seq<Seq<char>> {
    family.map_values(|name: Vec<char>| name@)
}

pub open spec fn optional(present: bool, name: Seq<char>) -> Seq<Seq<char>> {
    if present {
        seq![name]
    } else {
        Seq::empty()
    }
}

/// The faces that lead the proportional family, in order.
pub open spec fn spec_preferred_proportional(faces: PlatformFaces) -> Seq<Seq<char>> {
    optional(faces.ui_regular, ui_regular_key()) + seq![icon_font_key()] + optional(
        faces.cjk_regular,
        cjk_regular_key(),
    )
}

/// The faces that lead the emphasized family, in order.
pub open spec fn spec_emphasized_heads(faces: PlatformFaces) -> Seq<Seq<char>> {
    (if faces.ui_semibold {
        seq![ui_semibold_key()]
    } else {
        optional(faces.ui_regular, ui_regular_key())
    }) + seq![icon_font_key()] + (if faces.cjk_semibold {
        seq![cjk_semibold_key()]
    } else {
        optional(faces.cjk_regular, cjk_regular_key())
    })
}

/// `i` is the first position of `name` in `family`.
pub open spec fn first_at(family: Seq<Seq<char>>, name: Seq<char>, i: int) -> bool {
    &&& 0 <= i < family.len()
    &&& family[i] == name
    &&& forall|j: int| 0 <= j < i ==> family[j] != name
}

/// `family` without the first occurrence of `name`.
pub open spec fn without_first(family: Seq<Seq<char>>, name: Seq<char>) -> Seq<Seq<char>> {
    if exists|i: int| first_at(family, name, i) {
        family.remove(choose|i: int| first_at(family, name, i))
    } else {
        family
    }
}

/// `family` with each of `preferred` moved (or added) to the front, so that
/// the preferred names lead in their own order.
pub open spec fn prioritized(family: Seq<Seq<char>>, preferred: Seq<Seq<char>>) -> Seq<Seq<char>>
    decreases preferred.len(),
{
    if preferred.len() == 0 {
        family
    } else {
        seq![preferred[0]] + without_first(prioritized(family, preferred.drop_first()), preferred[0])
    }
}

/// `heads` followed by each fallback not already present, in order.
pub open spec fn with_fallbacks(heads: Seq<Seq<char>>, fallbacks: Seq<Seq<char>>) -> Seq<Seq<char>>
    decreases fallbacks.len(),
{
    if fallbacks.len() == 0 {
        heads
    } else {
        let so_far = with_fallbacks(heads, fallbacks.drop_last());
        if so_far.contains(fallbacks.last()) {
            so_far
        } else {
            so_far.push(fallbacks.last())
        }
    }
}

proof fn lemma_first_at_unique(family: Seq<Seq<char>>, name: Seq<char>, i: int, k: int)
    requires
        first_at(family, name, i),
        first_at(family, name, k),
    ensures
        i == k,
{
    if i < k {
        assert(family[i] == name);
    } else if k < i {
        assert(family[k] == name);
    }
}

/// The position of the first occurrence of `name`, if any.
fn find_name(family: &Vec<Vec<char>>, name: &Vec<char>) -> (r: Option<usize>)
    ensures
        match r {
            Some(i) => first_at(names(family@), name@, i as int),
            None => !exists|i: int| first_at(names(family@), name@, i),
        },
{
    let mut i: usize = 0;
    while i < family.len()
        invariant
            i <= family@.len(),
            forall|j: int| 0 <= j < i ==> names(family@)[j] != name@,
        decreases family.len() - i,
    {
        if eq_chars(&family[i], name) {
            assert(names(family@)[i as int] == name@);
            return Some(i);
        }
        i = i + 1;
    }
    proof {
        assert forall|k: int| !first_at(names(family@), name@, k) by {
            if 0 <= k < family@.len() {
                assert(names(family@)[k] != name@);
            }
        }
    }
    None
}

fn key(k: usize) -> (r: Vec<char>)
    requires
        k < 5,
    ensures
        r@ == (if k == 0 {
            ui_regular_key()
        } else if k == 1 {
            ui_semibold_key()
        } else if k == 2 {
            cjk_regular_key()
        } else if k == 3 {
            cjk_semibold_key()
        } else {
            icon_font_key()
        }),
{
    if k == 0 {
        literal("plotx-system-ui-regular")
    } else if k == 1 {
        literal("plotx-system-ui-semibold")
    } else if k == 2 {
        literal("plotx-system-cjk-regular")
    } else if k == 3 {
        literal("plotx-system-cjk-semibold")
    } else {
        literal("phosphor")
    }
}

/// The faces that lead the proportional family.
pub fn preferred_proportional(faces: PlatformFaces) -> (r: Vec<Vec<char>>)
    ensures
        names(r@) == spec_preferred_proportional(faces),
{
    let mut out: Vec<Vec<char>> = Vec::new();
    if faces.ui_regular {
        out.push(key(0));
    }
    out.push(key(4));
    if faces.cjk_regular {
        out.push(key(2));
    }
    assert(names(out@) =~= spec_preferred_proportional(faces));
    out
}

/// The faces that lead the emphasized family.
pub fn emphasized_heads(faces: PlatformFaces) -> (r: Vec<Vec<char>>)
    ensures
        names(r@) == spec_emphasized_heads(faces),
{
    let mut out: Vec<Vec<char>> = Vec::new();
    if faces.ui_semibold {
        out.push(key(1));
    } else if faces.ui_regular {
        out.push(key(0));
    }
    out.push(key(4));
    if faces.cjk_semibold {
        out.push(key(3));
    } else if faces.cjk_regular {
        out.push(key(2));
    }
    assert(names(out@) =~= spec_emphasized_heads(faces));
    out
}

/// Move each of `preferred` to the front of `family`, so that the preferred
/// names lead in their own order and the rest keep theirs.
pub fn prioritize(family: &mut Vec<Vec<char>>, preferred: &Vec<Vec<char>>)
    ensures
        names(final(family)@) == prioritized(names(old(family)@), names(preferred@)),
{
    let ghost start = names(family@);
    let mut k: usize = preferred.len();
    while k > 0
        invariant
            k <= preferred@.len(),
            names(family@) == prioritized(start, names(preferred@).subrange(k as int, preferred@.len() as int)),
        decreases k,
    {
        let name = &preferred[k - 1];
        let ghost before = names(family@);
        proof {
            let rest = names(preferred@).subrange(k - 1, preferred@.len() as int);
            assert(rest.drop_first() =~= names(preferred@).subrange(k as int, preferred@.len() as int));
            assert(rest[0] == name@);
        }
        match find_name(family, name) {
            Some(i) => {
                family.remove(i);
                proof {
                    let c = choose|j: int| first_at(before, name@, j);
                    lemma_first_at_unique(before, name@, i as int, c);
                    assert(names(family@) =~= before.remove(i as int));
                }
            },
            None => {},
        }
        let copy = suffix_from(name, 0);
        assert(copy@ =~= name@);
        family.insert(0, copy);
        proof {
            assert(names(family@) =~= seq![name@] + without_first(before, name@));
        }
        k = k - 1;
    }
    assert(names(preferred@).subrange(0, preferred@.len() as int) =~= names(preferred@));
}

/// The emphasized family: `heads`, then every name of `proportional` not
/// already in it, in order.
pub fn emphasized_family(heads: &Vec<Vec<char>>, proportional: &Vec<Vec<char>>) -> (r: Vec<Vec<char>>)
    ensures
        names(r@) == with_fallbacks(names(heads@), names(proportional@)),
{
    let mut family: Vec<Vec<char>> = Vec::new();
    let mut h: usize = 0;
    while h < heads.len()
        invariant
            h <= heads@.len(),
            names(family@) == names(heads@).subrange(0, h as int),
        decreases heads.len() - h,
    {
        let copy = suffix_from(&heads[h], 0);
        assert(copy@ =~= heads@[h as int]@);
        let ghost before = names(family@);
        family.push(copy);
        assert(names(family@) =~= before.push(copy@));
        assert(names(heads@).subrange(0, h as int + 1) =~= names(heads@).subrange(0, h as int).push(
            names(heads@)[h as int],
        ));
        h = h + 1;
    }
    assert(names(heads@).subrange(0, heads@.len() as int) =~= names(heads@));
    let mut i: usize = 0;
    while i < proportional.len()
        invariant
            i <= proportional@.len(),
            names(family@) == with_fallbacks(names(heads@), names(proportional@).subrange(0, i as int)),
        decreases proportional.len() - i,
    {
        let fallback = &proportional[i];
        let ghost before = names(family@);
        proof {
            let upto = names(proportional@).subrange(0, i as int + 1);
            assert(upto.drop_last() =~= names(proportional@).subrange(0, i as int));
            assert(upto.last() == fallback@);
        }
        match find_name(&family, fallback) {
            Some(j) => {
                assert(before[j as int] == fallback@);
                assert(before.contains(fallback@));
            },
            None => {
                proof {
                    if before.contains(fallback@) {
                        let j = choose|j: int| 0 <= j < before.len() && before[j] == fallback@;
                        lemma_some_first(before, fallback@, j);
                    }
                }
                let copy = suffix_from(fallback, 0);
                assert(copy@ =~= fallback@);
                family.push(copy);
                assert(names(family@) =~= before.push(fallback@));
            },
        }
        i = i + 1;
    }
    assert(names(proportional@).subrange(0, proportional@.len() as int) =~= names(proportional@));
    family
}

/// A name that occurs has a first occurrence.
proof fn lemma_some_first(family: Seq<Seq<char>>, name: Seq<char>, j: int)
    requires
        0 <= j < family.len(),
        family[j] == name,
    ensures
        exists|i: int| first_at(family, name, i),
    decreases j,
{
    if forall|k: int| 0 <= k < j ==> family[k] != name {
        assert(first_at(family, name, j));
    } else {
        let k = choose|k: int| 0 <= k < j && family[k] == name;
        lemma_some_first(family, name, k);
    }
}


/// The names of `s` are pairwise different.
pub open spec fn distinct(s: Seq<Seq<char>>) -> bool {
    forall|i: int, j: int| 0 <= i < j < s.len() ==> s[i] != s[j]
}

/// Prioritizing puts the preferred names, when they are distinct, at the
/// front of the family in their own order.
pub proof fn lemma_preferred_names_lead(family: Seq<Seq<char>>, preferred: Seq<Seq<char>>)
    requires
        distinct(preferred),
    ensures
        prioritized(family, preferred).len() >= preferred.len(),
        forall|k: int| 0 <= k < preferred.len() ==> #[trigger] prioritized(family, preferred)[k] == preferred[k],
    decreases preferred.len(),
{
    if preferred.len() > 0 {
        let rest = preferred.drop_first();
        let p0 = preferred[0];
        assert(distinct(rest)) by {
            assert forall|i: int, j: int| 0 <= i < j < rest.len() implies rest[i] != rest[j] by {
                assert(rest[i] == preferred[i + 1]);
                assert(rest[j] == preferred[j + 1]);
            }
        }
        lemma_preferred_names_lead(family, rest);
        let p = prioritized(family, rest);
        if exists|i: int| first_at(p, p0, i) {
            let i = choose|i: int| first_at(p, p0, i);
            if i < rest.len() {
                assert(p[i] == rest[i]);
                assert(rest[i] == preferred[i + 1]);
            }
            assert(i >= rest.len());
        }
        let w = without_first(p, p0);
        assert forall|k: int| 0 <= k < preferred.len() implies #[trigger] prioritized(family, preferred)[k] == preferred[k] by {
            if k > 0 {
                assert(w[k - 1] == p[k - 1]);
                assert(p[k - 1] == rest[k - 1]);
            }
        }
    }
}

/// Prioritizing loses no name of the family.
pub proof fn lemma_prioritizing_keeps_every_name(family: Seq<Seq<char>>, preferred: Seq<Seq<char>>, name: Seq<char>)
    requires
        family.contains(name),
    ensures
        prioritized(family, preferred).contains(name),
    decreases preferred.len(),
{
    if preferred.len() > 0 {
        let p0 = preferred[0];
        let result = prioritized(family, preferred);
        lemma_prioritizing_keeps_every_name(family, preferred.drop_first(), name);
        let p = prioritized(family, preferred.drop_first());
        if name == p0 {
            assert(result[0] == name);
        } else {
            let j = choose|j: int| 0 <= j < p.len() && p[j] == name;
            if exists|i: int| first_at(p, p0, i) {
                let i = choose|i: int| first_at(p, p0, i);
                if j < i {
                    assert(result[j + 1] == name);
                } else {
                    assert(j != i);
                    assert(result[j] == name);
                }
            } else {
                assert(result[j + 1] == name);
            }
        }
    }
}

/// The emphasized family leads with its heads, and holds every fallback.
pub proof fn lemma_emphasized_family_shape(heads: Seq<Seq<char>>, fallbacks: Seq<Seq<char>>)
    ensures
        with_fallbacks(heads, fallbacks).len() >= heads.len(),
        forall|k: int| 0 <= k < heads.len() ==> #[trigger] with_fallbacks(heads, fallbacks)[k] == heads[k],
        forall|k: int| 0 <= k < fallbacks.len() ==> with_fallbacks(heads, fallbacks).contains(#[trigger] fallbacks[k]),
    decreases fallbacks.len(),
{
    if fallbacks.len() > 0 {
        let before = fallbacks.drop_last();
        lemma_emphasized_family_shape(heads, before);
        let so_far = with_fallbacks(heads, before);
        let result = with_fallbacks(heads, fallbacks);
        assert forall|k: int| 0 <= k < fallbacks.len() implies result.contains(#[trigger] fallbacks[k]) by {
            if k < before.len() {
                assert(fallbacks[k] == before[k]);
                assert(so_far.contains(before[k]));
                if !so_far.contains(fallbacks.last()) {
                    let j = choose|j: int| 0 <= j < so_far.len() && so_far[j] == before[k];
                    assert(result[j] == before[k]);
                }
            } else {
                if !so_far.contains(fallbacks.last()) {
                    assert(result[so_far.len() as int] == fallbacks.last());
                }
            }
        }
    }
}

/// With the system faces present, the proportional family tries the system UI
/// face first, then the icon font, then the CJK face: a CJK fallback never
/// preempts the icon font.
pub proof fn lemma_system_faces_lead_the_proportional_family(family: Seq<Seq<char>>, faces: PlatformFaces)
    ensures
        ({
            let result = prioritized(family, spec_preferred_proportional(faces));
            let icon = if faces.ui_regular {
                1int
            } else {
                0int
            };
            &&& faces.ui_regular ==> result[0] == ui_regular_key()
            &&& result[icon] == icon_font_key()
            &&& faces.cjk_regular ==> result[icon + 1] == cjk_regular_key()
        }),
{
    reveal_strlit("plotx-system-ui-regular");
    reveal_strlit("plotx-system-cjk-regular");
    reveal_strlit("phosphor");
    let preferred = spec_preferred_proportional(faces);
    assert(ui_regular_key() != icon_font_key()) by {
        assert(ui_regular_key().len() != icon_font_key().len());
    }
    assert(cjk_regular_key() != icon_font_key()) by {
        assert(cjk_regular_key().len() != icon_font_key().len());
    }
    assert(ui_regular_key() != cjk_regular_key()) by {
        assert(ui_regular_key()[13] != cjk_regular_key()[13]);
    }
    assert(distinct(preferred));
    lemma_preferred_names_lead(family, preferred);
}

} // verus!
