//! XPS component identities, the link structure of XPS peak constraints, and
//! the XPS fitting errors.
use crate::constraints::{
    chain_problem, compile_links, compile_problem, first_value_problem, is_reordering, keys_unique,
    number_free_parameters, LinkProblem, ParameterCheck, ParameterKind, PeakConstraintKey, PeakLinks,
};
use vstd::prelude::*;
use vstd::string::StringExecFns;

verus! {

/// Stable identity of one XPS component.
#[derive(Clone, Copy, Debug, PartialEq, Eq, PartialOrd, Ord, Hash)]
pub struct XpsComponentId(pub u64);

impl XpsComponentId {
    pub fn new(value: u64) -> (id: Self)
        ensures
            id.0 == value,
    {
        XpsComponentId(value)
    }
}

/// Errors of the constrained line-shape fit.
#[derive(Clone, Debug, PartialEq, Eq)]
pub enum ConstrainedLineFitError {
    InvalidInput,
    InvalidConstraints(String),
    Cancelled,
    DidNotConverge,
}

/// Errors of XPS background computation and peak fitting.
#[derive(Clone, Debug, PartialEq, Eq)]
pub enum XpsFitError {
    InvalidInput,
    InvalidBackground,
    InvalidConstraints(String),
    Cancelled,
    DidNotConverge,
}

impl ConstrainedLineFitError {
    /// What the error says.
    pub open spec fn spec_message(self) -> Seq<char> {
        match self {
            ConstrainedLineFitError::InvalidInput => "line-fit arrays or options are invalid"@,
            ConstrainedLineFitError::InvalidConstraints(m) => "line-fit constraints are invalid: "@
                + m@,
            ConstrainedLineFitError::Cancelled => "line fit was cancelled"@,
            ConstrainedLineFitError::DidNotConverge => "line fit did not converge"@,
        }
    }

    /// What the error says.
    pub fn message(&self) -> (m: String)
        ensures
            m@ == self.spec_message(),
    {
        match self {
            ConstrainedLineFitError::InvalidInput => String::from_str(
                "line-fit arrays or options are invalid",
            ),
            ConstrainedLineFitError::InvalidConstraints(detail) => String::from_str(
                "line-fit constraints are invalid: ",
            ).concat(detail.as_str()),
            ConstrainedLineFitError::Cancelled => String::from_str("line fit was cancelled"),
            ConstrainedLineFitError::DidNotConverge => String::from_str("line fit did not converge"),
        }
    }
}

impl XpsFitError {
    /// What the error says.
    pub open spec fn spec_message(self) -> Seq<char> {
        match self {
            XpsFitError::InvalidInput => "XPS arrays are invalid"@,
            XpsFitError::InvalidBackground => "XPS background specification is invalid"@,
            XpsFitError::InvalidConstraints(m) => "XPS peak constraints are invalid: "@ + m@,
            XpsFitError::Cancelled => "XPS fit was cancelled"@,
            XpsFitError::DidNotConverge => "XPS fit did not converge"@,
        }
    }

    /// What the error says.
    pub fn message(&self) -> (m: String)
        ensures
            m@ == self.spec_message(),
    {
        match self {
            XpsFitError::InvalidInput => String::from_str("XPS arrays are invalid"),
            XpsFitError::InvalidBackground => String::from_str(
                "XPS background specification is invalid",
            ),
            XpsFitError::InvalidConstraints(detail) => String::from_str(
                "XPS peak constraints are invalid: ",
            ).concat(detail.as_str()),
            XpsFitError::Cancelled => String::from_str("XPS fit was cancelled"),
            XpsFitError::DidNotConverge => String::from_str("XPS fit did not converge"),
        }
    }
}

/// The constrained-fit error that reports a link problem.
pub fn link_error(problem: LinkProblem) -> (e: ConstrainedLineFitError)
    ensures
        e matches ConstrainedLineFitError::InvalidConstraints(m) && m@ == problem.spec_message(),
{
    ConstrainedLineFitError::InvalidConstraints(<String as StringExecFns>::from_str(problem.message()))
}

/// The XPS error that has the same meaning as a constrained-fit error.
pub fn map_fit_error(error: ConstrainedLineFitError) -> (e: XpsFitError)
    ensures
        e == match error {
            ConstrainedLineFitError::InvalidInput => XpsFitError::InvalidInput,
            ConstrainedLineFitError::InvalidConstraints(m) => XpsFitError::InvalidConstraints(m),
            ConstrainedLineFitError::Cancelled => XpsFitError::Cancelled,
            ConstrainedLineFitError::DidNotConverge => XpsFitError::DidNotConverge,
        },
{
    match error {
        ConstrainedLineFitError::InvalidInput => XpsFitError::InvalidInput,
        ConstrainedLineFitError::InvalidConstraints(message) => XpsFitError::InvalidConstraints(
            message,
        ),
        ConstrainedLineFitError::Cancelled => XpsFitError::Cancelled,
        ConstrainedLineFitError::DidNotConverge => XpsFitError::DidNotConverge,
    }
}

/// The link structure of one XPS peak specification: a center offset, a
/// shared FWHM, and an area ratio each name the component they follow.
#[derive(Clone, Copy, Debug)]
pub struct XpsPeakLinks {
    pub id: XpsComponentId,
    pub center: Option<XpsComponentId>,
    pub fwhm: Option<XpsComponentId>,
    pub area: Option<XpsComponentId>,
}

pub open spec fn spec_key(id: XpsComponentId) -> PeakConstraintKey {
    PeakConstraintKey(id.0)
}

/// The constraint key of an XPS component.
pub fn key(id: XpsComponentId) -> (k: PeakConstraintKey)
    ensures
        k == spec_key(id),
{
    PeakConstraintKey(id.0)
}

pub open spec fn spec_key_of(link: Option<XpsComponentId>) -> Option<PeakConstraintKey> {
    match link {
        Some(id) => Some(spec_key(id)),
        None => None,
    }
}

fn key_of(link: Option<XpsComponentId>) -> (k: Option<PeakConstraintKey>)
    ensures
        k == spec_key_of(link),
{
    match link {
        Some(id) => Some(key(id)),
        None => None,
    }
}

/// The generic link structure that an XPS peak compiles to.
pub open spec fn spec_peak_links(peak: XpsPeakLinks) -> PeakLinks {
    PeakLinks {
        key: spec_key(peak.id),
        position: spec_key_of(peak.center),
        fwhm: spec_key_of(peak.fwhm),
        area: spec_key_of(peak.area),
    }
}

/// Compile XPS peak links, one generic link record per peak, in order.
pub fn compile_xps_links(peaks: &Vec<XpsPeakLinks>) -> (r: Vec<PeakLinks>)
    ensures
        r@.len() == peaks@.len(),
        forall|i: int| 0 <= i < peaks@.len() ==> #[trigger] r@[i] == spec_peak_links(peaks@[i]),
{
    let mut out: Vec<PeakLinks> = Vec::new();
    let mut i: usize = 0;
    while i < peaks.len()
        invariant
            i <= peaks@.len(),
            out@.len() == i,
            forall|j: int| 0 <= j < i ==> #[trigger] out@[j] == spec_peak_links(peaks@[j]),
        decreases peaks.len() - i,
    {
        let peak = &peaks[i];
        out.push(
            PeakLinks {
                key: key(peak.id),
                position: key_of(peak.center),
                fwhm: key_of(peak.fwhm),
                area: key_of(peak.area),
            },
        );
        i = i + 1;
    }
    out
}

/// Check the link structure of an XPS constraint set. An empty set is valid;
/// otherwise the compiled links must form a valid link graph, and the first
/// problem is reported with its message.
pub fn validate_xps_links(peaks: &Vec<XpsPeakLinks>) -> (r: Result<(), XpsFitError>)
    ensures
        peaks@.len() == 0 ==> r is Ok,
        peaks@.len() > 0 ==> match compile_problem(peaks@.map_values(|p| spec_peak_links(p))) {
            None => r is Ok,
            Some(p) => r matches Err(XpsFitError::InvalidConstraints(m)) && m@ == p.spec_message(),
        },
{
    if peaks.len() == 0 {
        return Ok(());
    }
    let links = compile_xps_links(peaks);
    assert(links@ =~= peaks@.map_values(|p| spec_peak_links(p)));
    match compile_links(&links) {
        Ok(_) => Ok(()),
        Err(problem) => Err(map_fit_error(link_error(problem))),
    }
}

/// Whether any peak links one of its parameters to component `id`.
pub fn is_referenced(id: XpsComponentId, peaks: &Vec<XpsPeakLinks>) -> (r: bool)
    ensures
        r == exists|i: int|
            0 <= i < peaks@.len() && (#[trigger] peaks@[i].center == Some(id) || peaks@[i].fwhm
                == Some(id) || peaks@[i].area == Some(id)),
{
    let mut i: usize = 0;
    while i < peaks.len()
        invariant
            i <= peaks@.len(),
            forall|j: int|
                0 <= j < i ==> !(#[trigger] peaks@[j].center == Some(id) || peaks@[j].fwhm == Some(
                    id,
                ) || peaks@[j].area == Some(id)),
        decreases peaks.len() - i,
    {
        let peak = &peaks[i];
        let hit_center = match peak.center {
            Some(reference) => reference.0 == id.0,
            None => false,
        };
        let hit_fwhm = match peak.fwhm {
            Some(reference) => reference.0 == id.0,
            None => false,
        };
        let hit_area = match peak.area {
            Some(reference) => reference.0 == id.0,
            None => false,
        };
        if hit_center || hit_fwhm || hit_area {
            assert(peaks@[i as int].center == Some(id) || peaks@[i as int].fwhm == Some(id)
                || peaks@[i as int].area == Some(id));
            return true;
        }
        i = i + 1;
    }
    false
}

/// Hand out the next component identity and advance the counter, saturating
/// at the largest identity.
pub fn allocate_id(next_component_id: &mut u64) -> (id: XpsComponentId)
    ensures
        id.0 == *old(next_component_id),
        *final(next_component_id) == if *old(next_component_id) == u64::MAX {
            u64::MAX
        } else {
            (*old(next_component_id) + 1) as u64
        },
{
    let id = XpsComponentId::new(*next_component_id);
    *next_component_id = next_component_id.saturating_add(1);
    id
}

/// The first choice other than `owner`, or `owner` itself when there is none.
pub fn other(owner: XpsComponentId, choices: &Vec<XpsComponentId>) -> (r: XpsComponentId)
    ensures
        match first_other(owner, choices@) {
            Some(j) => r == choices@[j],
            None => r == owner,
        },
{
    let mut i: usize = 0;
    while i < choices.len()
        invariant
            i <= choices@.len(),
            forall|j: int| 0 <= j < i ==> #[trigger] choices@[j] == owner,
        decreases choices.len() - i,
    {
        if choices[i].0 != owner.0 {
            assert(choices@[i as int] != owner);
            assert(first_other_at(owner, choices@, i as int));
            proof {
                lemma_first_other(owner, choices@, i as int);
            }
            return choices[i];
        }
        assert(choices@[i as int] == owner);
        i = i + 1;
    }
    proof {
        if first_other(owner, choices@) is Some {
            let j = choose|j: int| first_other_at(owner, choices@, j);
            assert(choices@[j] == owner);
        }
    }
    owner
}

pub open spec fn first_other_at(owner: XpsComponentId, choices: Seq<XpsComponentId>, j: int) -> bool {
    &&& 0 <= j < choices.len()
    &&& choices[j] != owner
    &&& forall|k: int| 0 <= k < j ==> #[trigger] choices[k] == owner
}

/// The position of the first choice that differs from `owner`.
pub open spec fn first_other(owner: XpsComponentId, choices: Seq<XpsComponentId>) -> Option<int> {
    if exists|j: int| first_other_at(owner, choices, j) {
        Some(choose|j: int| first_other_at(owner, choices, j))
    } else {
        None
    }
}

proof fn lemma_first_other(owner: XpsComponentId, choices: Seq<XpsComponentId>, j: int)
    requires
        first_other_at(owner, choices, j),
    ensures
        first_other(owner, choices) == Some(j),
{
    let c = choose|c: int| first_other_at(owner, choices, c);
    if c < j {
        assert(choices[c] == owner);
    } else if c > j {
        assert(choices[j] == owner);
    }
}


/// The name of parameter `k` (0 to 3) of a fitted peak.
pub open spec fn parameter_name(k: int) -> Seq<char> {
    if k == 0 {
        "center"@
    } else if k == 1 {
        "FWHM"@
    } else if k == 2 {
        "area"@
    } else {
        "fraction"@
    }
}

fn parameter_name_exec(k: usize) -> (r: &'static str)
    requires
        k < 4,
    ensures
        r@ == parameter_name(k as int),
{
    if k == 0 {
        "center"
    } else if k == 1 {
        "FWHM"
    } else if k == 2 {
        "area"
    } else {
        "fraction"
    }
}

/// The labels of a fit's parameters: four per peak, in peak order, each the
/// peak's label, a space, and the parameter's name.
pub fn fit_parameter_labels(labels: &Vec<String>) -> (r: Vec<String>)
    ensures
        r@.len() == 4 * labels@.len(),
        forall|i: int, k: int|
            0 <= i < labels@.len() && 0 <= k < 4 ==> #[trigger] r@[4 * i + k]@ == labels@[i]@
                + " "@ + parameter_name(k),
{
    let mut out: Vec<String> = Vec::new();
    let mut i: usize = 0;
    while i < labels.len()
        invariant
            i <= labels@.len(),
            out@.len() == 4 * i,
            forall|j: int, k: int|
                0 <= j < i && 0 <= k < 4 ==> #[trigger] out@[4 * j + k]@ == labels@[j]@ + " "@
                    + parameter_name(k),
        decreases labels.len() - i,
    {
        let mut k: usize = 0;
        while k < 4
            invariant
                i < labels@.len(),
                k <= 4,
                out@.len() == 4 * i + k,
                forall|j: int, m: int|
                    0 <= j < i && 0 <= m < 4 ==> #[trigger] out@[4 * j + m]@ == labels@[j]@ + " "@
                        + parameter_name(m),
                forall|m: int|
                    0 <= m < k ==> #[trigger] out@[4 * i + m]@ == labels@[i as int]@ + " "@
                        + parameter_name(m),
            decreases 4 - k,
        {
            let label = String::from_str(labels[i].as_str()).concat(" ").concat(
                parameter_name_exec(k),
            );
            out.push(label);
            k = k + 1;
        }
        i = i + 1;
    }
    out
}

/// Whether a fitted peak at position `j` carries identity `id`.
pub open spec fn fitted_at(fitted: Seq<XpsComponentId>, id: XpsComponentId, j: int) -> bool {
    0 <= j < fitted.len() && fitted[j].0 == id.0
}

/// Whether some fitted peak carries identity `id`.
pub open spec fn is_fitted(fitted: Seq<XpsComponentId>, id: XpsComponentId) -> bool {
    exists|j: int| fitted_at(fitted, id, j)
}

/// The error reported when a stored fit does not cover its components.
pub open spec fn mismatched_ids_message() -> Seq<char> {
    "persisted result does not match its component IDs"@
}

/// For each requested component, the position of the first fitted peak with
/// its identity. A component that no fitted peak carries makes the stored
/// result unusable.
pub fn match_fitted_components(requested: &Vec<XpsComponentId>, fitted: &Vec<XpsComponentId>) -> (r:
    Result<Vec<usize>, XpsFitError>)
    ensures
        r is Ok <==> forall|i: int|
            0 <= i < requested@.len() ==> #[trigger] is_fitted(fitted@, requested@[i]),
        match r {
            Ok(positions) => positions@.len() == requested@.len() && forall|i: int|
                0 <= i < requested@.len() ==> {
                    &&& fitted_at(fitted@, requested@[i], #[trigger] positions@[i] as int)
                    &&& forall|j: int|
                        0 <= j < positions@[i] ==> !fitted_at(fitted@, requested@[i], j)
                },
            Err(e) => e matches XpsFitError::InvalidConstraints(m) && m@
                == mismatched_ids_message(),
        },
{
    let mut positions: Vec<usize> = Vec::new();
    let mut i: usize = 0;
    while i < requested.len()
        invariant
            i <= requested@.len(),
            positions@.len() == i,
            forall|a: int|
                0 <= a < i ==> {
                    &&& fitted_at(fitted@, requested@[a], #[trigger] positions@[a] as int)
                    &&& forall|j: int|
                        0 <= j < positions@[a] ==> !fitted_at(fitted@, requested@[a], j)
                },
        decreases requested.len() - i,
    {
        let id = requested[i];
        let mut j: usize = 0;
        while j < fitted.len() && fitted[j].0 != id.0
            invariant
                j <= fitted@.len(),
                id == requested@[i as int],
                forall|b: int| 0 <= b < j ==> !fitted_at(fitted@, id, b),
            decreases fitted.len() - j,
        {
            j = j + 1;
        }
        if j == fitted.len() {
            proof {
                assert forall|b: int| !fitted_at(fitted@, requested@[i as int], b) by {
                    if 0 <= b < fitted@.len() {
                        assert(!fitted_at(fitted@, id, b));
                    }
                }
                assert(!is_fitted(fitted@, requested@[i as int]));
            }
            return Err(
                XpsFitError::InvalidConstraints(
                    String::from_str("persisted result does not match its component IDs"),
                ),
            );
        }
        assert(fitted_at(fitted@, requested@[i as int], j as int));
        positions.push(j);
        i = i + 1;
    }
    proof {
        assert forall|a: int| 0 <= a < requested@.len() implies #[trigger] is_fitted(
            fitted@,
            requested@[a],
        ) by {
            assert(fitted_at(fitted@, requested@[a], positions@[a] as int));
        }
    }
    Ok(positions)
}

/// Whether a stored fit summary has the shape of its invocation: one fitted
/// peak per requested component with the same identity, in order, and four
/// parameter labels per peak.
pub fn summary_matches_invocation(
    requested: &Vec<XpsComponentId>,
    fitted: &Vec<XpsComponentId>,
    label_count: usize,
) -> (r: bool)
    ensures
        r <==> (fitted@.len() == requested@.len() && label_count == 4 * fitted@.len() && forall|
            i: int,
        | 0 <= i < requested@.len() ==> #[trigger] fitted@[i].0 == requested@[i].0),
{
    if fitted.len() != requested.len() {
        return false;
    }
    if label_count / 4 != fitted.len() || label_count % 4 != 0 {
        return false;
    }
    let mut i: usize = 0;
    while i < requested.len()
        invariant
            fitted@.len() == requested@.len(),
            i <= requested@.len(),
            forall|a: int| 0 <= a < i ==> #[trigger] fitted@[a].0 == requested@[a].0,
        decreases requested.len() - i,
    {
        if fitted[i].0 != requested[i].0 {
            return false;
        }
        i = i + 1;
    }
    true
}


/// One edit of a region's component list.
#[derive(Clone, Copy, Debug, PartialEq, Eq)]
pub enum ComponentEdit {
    /// Swap two components (the Move up / Move down buttons).
    Move { from: usize, to: usize },
    /// Drop a component.
    Remove(usize),
    /// Append a component whose center, FWHM and area all follow another.
    CopyLinked(usize),
    /// Append a component with no links.
    AddIndependent,
}

/// The links of a copy of `source` with identity `id`: every parameter
/// follows `source`.
pub open spec fn linked_copy(source: XpsPeakLinks, id: XpsComponentId) -> XpsPeakLinks {
    XpsPeakLinks { id, center: Some(source.id), fwhm: Some(source.id), area: Some(source.id) }
}

/// The links of a new independent component.
pub open spec fn independent(id: XpsComponentId) -> XpsPeakLinks {
    XpsPeakLinks { id, center: None, fwhm: None, area: None }
}

/// Whether `edit` names components that exist.
pub open spec fn edit_in_range(edit: ComponentEdit, len: int) -> bool {
    match edit {
        ComponentEdit::Move { from, to } => from < len && to < len,
        ComponentEdit::Remove(i) => i < len,
        ComponentEdit::CopyLinked(i) => i < len,
        ComponentEdit::AddIndependent => true,
    }
}

/// The component list after `edit`, when new components get identity
/// `next`.
pub open spec fn edited(peaks: Seq<XpsPeakLinks>, edit: ComponentEdit, next: u64) -> Seq<XpsPeakLinks> {
    match edit {
        ComponentEdit::Move { from, to } => peaks.update(from as int, peaks[to as int]).update(
            to as int,
            peaks[from as int],
        ),
        ComponentEdit::Remove(i) => peaks.remove(i as int),
        ComponentEdit::CopyLinked(i) => peaks.push(linked_copy(peaks[i as int], XpsComponentId(next))),
        ComponentEdit::AddIndependent => peaks.push(independent(XpsComponentId(next))),
    }
}

/// Whether `edit` hands out a new identity.
pub open spec fn allocates(edit: ComponentEdit) -> bool {
    edit is CopyLinked || edit is AddIndependent
}

/// Apply one edit to the link structure of a component list. Copies and new
/// components take the next identity, which then advances (saturating).
pub fn apply_component_edit(peaks: &mut Vec<XpsPeakLinks>, next_component_id: &mut u64, edit: ComponentEdit)
    requires
        edit_in_range(edit, old(peaks)@.len() as int),
    ensures
        final(peaks)@ == edited(old(peaks)@, edit, *old(next_component_id)),
        *final(next_component_id) == if allocates(edit) && *old(next_component_id) < u64::MAX {
            (*old(next_component_id) + 1) as u64
        } else {
            *old(next_component_id)
        },
{
    match edit {
        ComponentEdit::Move { from, to } => {
            let a = peaks[from];
            let b = peaks[to];
            peaks.set(from, b);
            peaks.set(to, a);
        },
        ComponentEdit::Remove(i) => {
            peaks.remove(i);
        },
        ComponentEdit::CopyLinked(i) => {
            let reference = peaks[i].id;
            let id = allocate_id(next_component_id);
            peaks.push(
                XpsPeakLinks {
                    id,
                    center: Some(reference),
                    fwhm: Some(reference),
                    area: Some(reference),
                },
            );
        },
        ComponentEdit::AddIndependent => {
            let id = allocate_id(next_component_id);
            peaks.push(XpsPeakLinks { id, center: None, fwhm: None, area: None });
        },
    }
}

/// The label of a linked copy: the source's label and " linked".
pub fn linked_label(label: &str) -> (r: String)
    ensures
        r@ == label@ + " linked"@,
{
    String::from_str(label).concat(" linked")
}

/// The label of the component added to a list of `count`: "Peak" and its
/// position, counted from one.
pub fn new_component_label(count: u64) -> (r: String)
    requires
        count < u64::MAX,
    ensures
        r@ == "Peak "@ + crate::text::decimal_text((count + 1) as nat),
{
    let digits = crate::text::decimal(count + 1);
    let text = crate::text::string_from_chars(&digits);
    String::from_str("Peak ").concat(text.as_str())
}


/// Whether a component list's links are valid: it is empty, or its links
/// compile without a problem.
pub open spec fn xps_links_valid(peaks: Seq<XpsPeakLinks>) -> bool {
    peaks.len() == 0 || compile_problem(peaks.map_values(|p| spec_peak_links(p))) is None
}

/// Whether some component links one of its parameters to `id`.
pub open spec fn referenced(peaks: Seq<XpsPeakLinks>, id: XpsComponentId) -> bool {
    exists|k: int|
        0 <= k < peaks.len() && (#[trigger] peaks[k].center == Some(id) || peaks[k].fwhm == Some(id)
            || peaks[k].area == Some(id))
}

/// The edits the component list offers keep its links valid: moving a
/// component, removing one that no component references, and appending an
/// independent component or a linked copy under a fresh identity.
pub proof fn lemma_component_edits_keep_links_valid(peaks: Seq<XpsPeakLinks>, edit: ComponentEdit, next: u64)
    requires
        peaks.len() + 1 <= usize::MAX,
        edit_in_range(edit, peaks.len() as int),
        xps_links_valid(peaks),
        allocates(edit) ==> forall|k: int| 0 <= k < peaks.len() ==> #[trigger] peaks[k].id.0 != next,
        edit matches ComponentEdit::Remove(i) ==> !referenced(peaks, peaks[i as int].id),
    ensures
        xps_links_valid(edited(peaks, edit, next)),
{
    let links = peaks.map_values(|p| spec_peak_links(p));
    let q = edited(peaks, edit, next);
    let qlinks = q.map_values(|p| spec_peak_links(p));
    match edit {
        ComponentEdit::Move { from, to } => {
            let n = peaks.len();
            let perm = Seq::new(n, |j: int| if j == from { to } else if j == to { from } else { j as usize });
            assert(is_reordering(links, qlinks, perm, perm)) by {
                assert forall|j: int| 0 <= j < qlinks.len() implies #[trigger] perm[j] < links.len()
                    && qlinks[j] == links[perm[j] as int] by {
                    assert(qlinks[j] == spec_peak_links(q[j]));
                }
                assert forall|j: int| 0 <= j < links.len() implies #[trigger] perm[j] < links.len()
                    && perm[perm[j] as int] == j by {}
            }
            crate::constraints::lemma_links_valid_in_any_order(links, qlinks, perm, perm);
        },
        ComponentEdit::Remove(i) => {
            if peaks.len() > 1 {
                assert(qlinks =~= links.remove(i as int));
                assert forall|j: int, k: ParameterKind| 0 <= j < links.len() implies #[trigger] links[j].link(k)
                    != Some(links[i as int].key) by {
                    assert(links[j] == spec_peak_links(peaks[j]));
                    assert(links[i as int].key == spec_key(peaks[i as int].id));
                    if links[j].link(k) == Some(links[i as int].key) {
                        assert(peaks[j].center == Some(peaks[i as int].id) || peaks[j].fwhm == Some(
                            peaks[i as int].id,
                        ) || peaks[j].area == Some(peaks[i as int].id));
                    }
                }
                crate::constraints::lemma_removing_unreferenced_keeps_links_valid(links, i as int);
            }
        },
        ComponentEdit::CopyLinked(i) => {
            let x = spec_peak_links(linked_copy(peaks[i as int], XpsComponentId(next)));
            assert(qlinks =~= links.push(x));
            assert forall|j: int| 0 <= j < links.len() implies #[trigger] links[j].key != x.key by {
                assert(links[j] == spec_peak_links(peaks[j]));
            }
            assert forall|kind: ParameterKind| #[trigger] x.link(kind) is Some implies exists|t: int|
                0 <= t < links.len() && #[trigger] links[t].key == x.link(kind)->0 by {
                assert(links[i as int] == spec_peak_links(peaks[i as int]));
                assert(links[i as int].key == x.link(kind)->0);
            }
            crate::constraints::lemma_appending_keeps_links_valid(links, x);
        },
        ComponentEdit::AddIndependent => {
            let x = spec_peak_links(independent(XpsComponentId(next)));
            assert(qlinks =~= links.push(x));
            if peaks.len() == 0 {
                assert(qlinks =~= seq![x]);
                reveal_with_fuel(crate::constraints::order_problem, 2);
                assert(keys_unique(qlinks));
                assert forall|kind: ParameterKind| #[trigger] chain_problem(qlinks, kind, seq![0usize]) is None by {
                    assert(seq![0usize].last() == 0usize);
                    assert(qlinks[0].link(kind) is None);
                }
                assert(chain_problem(qlinks, ParameterKind::Position, seq![0usize]) is None);
                assert(chain_problem(qlinks, ParameterKind::Fwhm, seq![0usize]) is None);
                assert(chain_problem(qlinks, ParameterKind::Area, seq![0usize]) is None);
            } else {
                assert forall|j: int| 0 <= j < links.len() implies #[trigger] links[j].key != x.key by {
                    assert(links[j] == spec_peak_links(peaks[j]));
                }
                crate::constraints::lemma_appending_keeps_links_valid(links, x);
            }
        },
    }
}


/// Handing out identities from a counter above every identity in use keeps
/// the counter above every identity, so each new component's identity is
/// fresh (while the counter has not saturated).
pub proof fn lemma_edits_keep_the_counter_ahead(peaks: Seq<XpsPeakLinks>, edit: ComponentEdit, next: u64)
    requires
        edit_in_range(edit, peaks.len() as int),
        next < u64::MAX,
        forall|k: int| 0 <= k < peaks.len() ==> #[trigger] peaks[k].id.0 < next,
    ensures
        ({
            let after = if allocates(edit) {
                next + 1
            } else {
                next as int
            };
            forall|k: int|
                0 <= k < edited(peaks, edit, next).len() ==> #[trigger] edited(peaks, edit, next)[k].id.0
                    < after
        }),
{
    let q = edited(peaks, edit, next);
    match edit {
        ComponentEdit::Remove(i) => {
            assert forall|k: int| 0 <= k < q.len() implies #[trigger] q[k].id.0 < next by {
                if k < i {
                    assert(q[k] == peaks[k]);
                } else {
                    assert(q[k] == peaks[k + 1]);
                }
            }
        },
        _ => {},
    }
}


/// The structural checks of an XPS constraint set, in the order its compiler
/// makes them: an empty set passes; otherwise the link graph must be valid,
/// and then the values of every parameter (`checks`, three per component:
/// center, FWHM, area) must be. The first problem is reported with its
/// message.
pub fn validate_xps_constraint_structure(peaks: &Vec<XpsPeakLinks>, checks: &Vec<ParameterCheck>) -> (r: Result<(), XpsFitError>)
    ensures
        peaks@.len() == 0 ==> r is Ok,
        peaks@.len() > 0 ==> match compile_problem(peaks@.map_values(|p| spec_peak_links(p))) {
            Some(p) => r matches Err(XpsFitError::InvalidConstraints(m)) && m@ == p.spec_message(),
            None => match first_value_problem(checks@, checks@.len() as int) {
                Some(v) => r matches Err(XpsFitError::InvalidConstraints(m)) && m@ == v.spec_message(),
                None => r is Ok,
            },
        },
{
    if peaks.len() == 0 {
        return Ok(());
    }
    match validate_xps_links(peaks) {
        Err(e) => return Err(e),
        Ok(()) => {},
    }
    match number_free_parameters(checks) {
        Ok(_) => Ok(()),
        Err(problem) => Err(
            XpsFitError::InvalidConstraints(<String as StringExecFns>::from_str(problem.message())),
        ),
    }
}

} // verus!
