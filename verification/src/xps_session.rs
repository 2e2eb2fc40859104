//! The editing state of an XPS session: each region's processing step list,
//! the slot of the running fit or bootstrap job, the status line a finished
//! fit leaves, and the peak template a region's name selects.
use crate::text::{contains_seq, eq_ignore_ascii_case, lowercase, to_ascii_lowercase, contains_chars, literal};
use crate::xps::XpsFitError;
use vstd::prelude::*;
use vstd::string::StringExecFns;
use vstd::string::StringSliceAdditionalSpecFns;

verus! {

/// Stable identity of one processing step.
#[derive(Clone, Copy, Debug, PartialEq, Eq, Hash, Structural)]
pub struct StepId(pub u64);

/// One processing step of a region's recipe; `K` says what the step does.
#[derive(Clone, Debug, PartialEq)]
pub struct XpsStep<K> {
    pub id: StepId,
    pub kind: K,
    pub enabled: bool,
}

/// An edit named a step the recipe no longer has.
#[derive(Clone, Copy, Debug, PartialEq, Eq)]
pub enum StepEditError {
    StepMissing,
}

impl StepEditError {
    /// The message shown for the error.
    pub fn message(&self) -> (m: String)
        ensures
            m@ == "The XPS processing step is no longer available."@,
    {
        String::from_str("The XPS processing step is no longer available.")
    }
}

/// No two steps share an identity.
pub open spec fn ids_unique<K>(s: Seq<XpsStep<K>>) -> bool {
    forall|i: int, j: int| 0 <= i < j < s.len() ==> s[i].id != s[j].id
}

/// Every identity is below the counter that hands out the next one.
pub open spec fn counter_ahead<K>(s: Seq<XpsStep<K>>, next: u64) -> bool {
    forall|i: int| 0 <= i < s.len() ==> s[i].id.0 < next
}

/// The counter after handing out one identity, saturating at the largest.
pub open spec fn advanced(next: u64) -> u64 {
    if next == u64::MAX {
        u64::MAX
    } else {
        (next + 1) as u64
    }
}

/// Append a new enabled step under the next identity and advance the counter.
pub fn add_step<K>(steps: &mut Vec<XpsStep<K>>, next_step_id: &mut u64, kind: K) -> (id: StepId)
    ensures
        id.0 == *old(next_step_id),
        *final(next_step_id) == advanced(*old(next_step_id)),
        final(steps)@ == old(steps)@.push(XpsStep { id, kind, enabled: true }),
{
    let id = StepId(*next_step_id);
    *next_step_id = next_step_id.saturating_add(1);
    steps.push(XpsStep { id, kind, enabled: true });
    id
}

/// Adding a step keeps identities unique and the counter ahead of them, as
/// long as the counter has not reached its end.
pub proof fn lemma_add_keeps_ids_unique<K>(s: Seq<XpsStep<K>>, next: u64, kind: K)
    requires
        ids_unique(s),
        counter_ahead(s, next),
        next < u64::MAX,
    ensures
        ids_unique(s.push(XpsStep { id: StepId(next), kind, enabled: true })),
        counter_ahead(s.push(XpsStep { id: StepId(next), kind, enabled: true }), advanced(next)),
{
    let t = s.push(XpsStep { id: StepId(next), kind, enabled: true });
    assert forall|i: int, j: int| 0 <= i < j < t.len() implies t[i].id != t[j].id by {
        if j == s.len() {
            assert(t[i].id.0 < next);
        } else {
            assert(t[i] == s[i] && t[j] == s[j]);
        }
    }
}

/// Some step has identity `id`.
pub open spec fn has_step<K>(s: Seq<XpsStep<K>>, id: StepId) -> bool {
    exists|i: int| 0 <= i < s.len() && s[i].id == id
}

/// The steps other than those with identity `id`, in order.
pub open spec fn without_step<K>(s: Seq<XpsStep<K>>, id: StepId) -> Seq<XpsStep<K>>
    decreases s.len(),
{
    if s.len() == 0 {
        s
    } else if s[0].id == id {
        without_step(s.drop_first(), id)
    } else {
        seq![s[0]] + without_step(s.drop_first(), id)
    }
}

proof fn lemma_without_step_len<K>(s: Seq<XpsStep<K>>, id: StepId)
    ensures
        without_step(s, id).len() <= s.len(),
        without_step(s, id).len() == s.len() <==> !has_step(s, id),
        !has_step(s, id) ==> without_step(s, id) == s,
    decreases s.len(),
{
    if s.len() > 0 {
        let rest = s.drop_first();
        lemma_without_step_len(rest, id);
        if has_step(rest, id) {
            let k = choose|k: int| 0 <= k < rest.len() && rest[k].id == id;
            assert(s[k + 1].id == id);
        }
        if has_step(s, id) && s[0].id != id {
            let k = choose|k: int| 0 <= k < s.len() && s[k].id == id;
            assert(rest[k - 1].id == id);
        }
        if !has_step(s, id) {
            assert(s[0].id != id);
            assert forall|k: int| 0 <= k < rest.len() implies rest[k].id != id by {
                assert(rest[k] == s[k + 1]);
            }
            assert(seq![s[0]] + rest =~= s);
        }
    }
}

/// Remove every step with identity `id`; an error, and the list unchanged,
/// when there is none.
pub fn remove_step<K>(steps: &mut Vec<XpsStep<K>>, id: StepId) -> (r: Result<(), StepEditError>)
    ensures
        r is Ok <==> has_step(old(steps)@, id),
        r is Err ==> r == Err::<(), StepEditError>(StepEditError::StepMissing),
        final(steps)@ == without_step(old(steps)@, id),
        r is Err ==> final(steps)@ == old(steps)@,
{
    let ghost initial = steps@;
    let mut rest: Vec<XpsStep<K>> = Vec::new();
    std::mem::swap(&mut rest, steps);
    let before = rest.len();
    let mut kept: Vec<XpsStep<K>> = Vec::new();
    while rest.len() > 0
        invariant
            without_step(initial, id) == kept@ + without_step(rest@, id),
        decreases rest@.len(),
    {
        let ghost r0 = rest@;
        let step = rest.remove(0);
        assert(rest@ =~= r0.drop_first());
        if step.id == id {
        } else {
            let ghost k0 = kept@;
            kept.push(step);
            assert(k0 + (seq![r0[0]] + without_step(rest@, id)) =~= kept@ + without_step(rest@, id));
        }
    }
    proof {
        assert(kept@ + without_step(rest@, id) =~= kept@);
        lemma_without_step_len(initial, id);
    }
    let removed = kept.len() != before;
    *steps = kept;
    if removed {
        Ok(())
    } else {
        Err(StepEditError::StepMissing)
    }
}

/// The position of the first step with identity `id` at or after `from`.
pub open spec fn find_step<K>(s: Seq<XpsStep<K>>, id: StepId, from: int) -> Option<int>
    decreases s.len() - from,
{
    if from < 0 || from >= s.len() {
        None
    } else if s[from].id == id {
        Some(from)
    } else {
        find_step(s, id, from + 1)
    }
}

proof fn lemma_find_step<K>(s: Seq<XpsStep<K>>, id: StepId, from: int)
    requires
        0 <= from,
    ensures
        find_step(s, id, from) matches Some(i) ==> from <= i < s.len() && s[i].id == id && forall|
            k: int,
        |
            from <= k < i ==> s[k].id != id,
        find_step(s, id, from) is None ==> forall|k: int| from <= k < s.len() ==> s[k].id != id,
    decreases s.len() - from,
{
    if from < s.len() && s[from].id != id {
        lemma_find_step(s, id, from + 1);
    }
}

fn position_of<K>(steps: &Vec<XpsStep<K>>, id: StepId) -> (r: Option<usize>)
    ensures
        match find_step(steps@, id, 0) {
            Some(i) => r == Some(i as usize),
            None => r is None,
        },
{
    let mut i: usize = 0;
    while i < steps.len()
        invariant
            i <= steps@.len(),
            find_step(steps@, id, 0) == find_step(steps@, id, i as int),
        decreases steps.len() - i,
    {
        if steps[i].id == id {
            return Some(i);
        }
        i = i + 1;
    }
    None
}

/// Enable or disable the first step with identity `id`.
pub fn set_step_enabled<K>(steps: &mut Vec<XpsStep<K>>, id: StepId, enabled: bool) -> (r: Result<
    (),
    StepEditError,
>)
    ensures
        match find_step(old(steps)@, id, 0) {
            Some(i) => r is Ok && final(steps)@ == old(steps)@.update(
                i,
                XpsStep { enabled, ..old(steps)@[i] },
            ),
            None => r == Err::<(), StepEditError>(StepEditError::StepMissing) && final(steps)@
                == old(steps)@,
        },
{
    proof {
        lemma_find_step(steps@, id, 0);
    }
    let n = steps.len();
    match position_of(steps, id) {
        Some(i) => {
            let ghost before = steps@;
            let mut step = steps.remove(i);
            step.enabled = enabled;
            steps.insert(i, step);
            assert(steps@ =~= before.update(i as int, XpsStep { enabled, ..before[i as int] }));
            Ok(())
        },
        None => Err(StepEditError::StepMissing),
    }
}

/// Where a step at `index` lands when moved by `offset` in a list of `len`
/// steps: the shifted position, saturating at the ends of `usize`, then kept
/// within the list.
pub open spec fn move_target(len: int, index: int, offset: int) -> int {
    let shifted = index + offset;
    let saturated = if shifted < 0 {
        0
    } else if shifted > usize::MAX {
        usize::MAX as int
    } else {
        shifted
    };
    let last = if len > 0 {
        len - 1
    } else {
        0
    };
    if saturated < last {
        saturated
    } else {
        last
    }
}

/// `s` with the steps at `i` and `j` exchanged.
pub open spec fn swapped<K>(s: Seq<XpsStep<K>>, i: int, j: int) -> Seq<XpsStep<K>> {
    s.update(i, s[j]).update(j, s[i])
}

/// The list after moving the first step with identity `id` by `offset`.
pub open spec fn spec_move<K>(s: Seq<XpsStep<K>>, id: StepId, offset: int) -> Option<Seq<XpsStep<K>>> {
    match find_step(s, id, 0) {
        Some(i) => {
            let j = move_target(s.len() as int, i, offset);
            Some(if j != i { swapped(s, i, j) } else { s })
        },
        None => None,
    }
}

fn shifted_index(index: usize, offset: isize) -> (r: usize)
    ensures
        r == (if index + offset < 0 {
            0
        } else if index + offset > usize::MAX {
            usize::MAX as int
        } else {
            index + offset
        }),
{
    if offset >= 0 {
        let m = offset as usize;
        if m > usize::MAX - index {
            usize::MAX
        } else {
            index + m
        }
    } else {
        let m = ((-(offset + 1)) as usize) + 1;
        if m > index {
            0
        } else {
            index - m
        }
    }
}

fn swap_steps<K>(steps: &mut Vec<XpsStep<K>>, i: usize, j: usize)
    requires
        i < j < old(steps)@.len(),
    ensures
        final(steps)@ == swapped(old(steps)@, i as int, j as int),
{
    let ghost s = steps@;
    let b = steps.remove(j);
    let a = steps.remove(i);
    steps.insert(i, b);
    steps.insert(j, a);
    assert(steps@ =~= swapped(s, i as int, j as int));
}

/// Move the first step with identity `id` by `offset` places, exchanging it
/// with the step it lands on.
pub fn move_step<K>(steps: &mut Vec<XpsStep<K>>, id: StepId, offset: isize) -> (r: Result<
    (),
    StepEditError,
>)
    ensures
        match spec_move(old(steps)@, id, offset as int) {
            Some(moved) => r is Ok && final(steps)@ == moved,
            None => r == Err::<(), StepEditError>(StepEditError::StepMissing) && final(steps)@
                == old(steps)@,
        },
{
    proof {
        lemma_find_step(steps@, id, 0);
    }
    let index = match position_of(steps, id) {
        Some(i) => i,
        None => {
            return Err(StepEditError::StepMissing);
        },
    };
    let last = if steps.len() > 0 {
        steps.len() - 1
    } else {
        0
    };
    let shifted = shifted_index(index, offset);
    let target = if shifted < last {
        shifted
    } else {
        last
    };
    if target < index {
        swap_steps(steps, target, index);
        proof {
            assert(swapped(old(steps)@, target as int, index as int) =~= swapped(
                old(steps)@,
                index as int,
                target as int,
            ));
        }
    } else if target > index {
        swap_steps(steps, index, target);
    }
    Ok(())
}

/// Moving a step by `offset` and then by `-offset` restores the list, when
/// identities are unique and the first move stays within the list.
pub proof fn lemma_move_round_trip<K>(s: Seq<XpsStep<K>>, i: int, offset: int)
    requires
        ids_unique(s),
        0 <= i < s.len(),
        0 <= i + offset < s.len(),
        s.len() <= usize::MAX,
    ensures
        spec_move(s, s[i].id, offset) matches Some(moved) && spec_move(moved, s[i].id, -offset)
            == Some(s),
{
    let id = s[i].id;
    lemma_find_step(s, id, 0);
    assert(find_step(s, id, 0) == Some(i)) by {
        match find_step(s, id, 0) {
            Some(k) => {
                if k != i {
                    if k < i {
                        assert(s[k].id != s[i].id);
                    } else {
                        assert(s[i].id != id);
                    }
                }
            },
            None => {},
        }
    }
    let j = i + offset;
    assert(move_target(s.len() as int, i, offset) == j);
    let moved = if j != i {
        swapped(s, i, j)
    } else {
        s
    };
    assert(moved[j].id == id);
    lemma_find_step(moved, id, 0);
    assert(find_step(moved, id, 0) == Some(j)) by {
        match find_step(moved, id, 0) {
            Some(k) => {
                if k < j {
                    assert(moved[k].id == id);
                    if k == i {
                        assert(moved[k] == s[j]);
                        assert(s[j].id != s[i].id);
                    } else {
                        assert(moved[k] == s[k]);
                        if k < i {
                            assert(s[k].id != s[i].id);
                        } else {
                            assert(s[i].id != s[k].id);
                        }
                    }
                }
            },
            None => {},
        }
    }
    assert(move_target(s.len() as int, j, -offset) == i);
    if j != i {
        assert(swapped(moved, j, i) =~= s);
    }
}

/// Which analysis a job runs.
#[derive(Clone, Copy, Debug, PartialEq, Eq, Structural)]
pub enum XpsJobKind {
    Fit,
    Bootstrap,
}

/// The running job: the dataset and region it analyses, and its kind. The
/// worker itself is owned by the caller.
#[derive(Clone, Copy, Debug, PartialEq, Eq, Structural)]
pub struct XpsJobTicket {
    pub dataset: u64,
    pub region: u64,
    pub kind: XpsJobKind,
}

/// The session's job slot and status line.
#[derive(Clone, Debug, PartialEq, Eq)]
pub struct XpsJobSlot {
    pub job: Option<XpsJobTicket>,
    pub status: String,
}

/// Cancel the running job, if any: the slot is emptied and the status says
/// so. Returns whether a job was cancelled; the caller then signals that
/// job's worker to stop.
pub fn cancel_xps_fit(slot: &mut XpsJobSlot) -> (cancelled: bool)
    ensures
        cancelled == old(slot).job.is_some(),
        final(slot).job is None,
        cancelled ==> final(slot).status@ == "XPS analysis cancelled."@,
        !cancelled ==> final(slot).status@ == old(slot).status@,
{
    if slot.job.is_none() {
        return false;
    }
    slot.job = None;
    slot.status = String::from_str("XPS analysis cancelled.");
    true
}

/// The status line a failed fit leaves.
pub open spec fn fit_error_status(error: XpsFitError) -> Seq<char> {
    match error {
        XpsFitError::Cancelled => "The XPS fit was cancelled."@,
        XpsFitError::DidNotConverge => "The XPS fit did not converge. Review initial peaks and constraints."@,
        _ => error.spec_message(),
    }
}

/// The status line a failed fit leaves.
pub fn xps_fit_error(error: &XpsFitError) -> (m: String)
    ensures
        m@ == fit_error_status(*error),
{
    match error {
        XpsFitError::Cancelled => String::from_str("The XPS fit was cancelled."),
        XpsFitError::DidNotConverge => String::from_str(
            "The XPS fit did not converge. Review initial peaks and constraints.",
        ),
        _ => error.message(),
    }
}

/// The peak templates a region's name can select.
#[derive(Clone, Copy, Debug, PartialEq, Eq, Structural)]
pub enum XpsTemplateFamily {
    /// Carbon 1s.
    C1s,
    /// Nitrogen 1s.
    N1s,
    /// Oxygen 1s.
    O1s,
}

/// `s` without its space characters.
pub open spec fn without_spaces(s: Seq<char>) -> Seq<char>
    decreases s.len(),
{
    if s.len() == 0 {
        s
    } else if s.last() == ' ' {
        without_spaces(s.drop_last())
    } else {
        without_spaces(s.drop_last()).push(s.last())
    }
}

/// A region name in lower case without spaces.
pub open spec fn normalized_region_name(name: Seq<char>) -> Seq<char> {
    without_spaces(lowercase(name))
}

/// The template a region name selects: the first of `c1s`, `n1s`, `o1s`
/// that its normalized form contains.
pub open spec fn spec_template_family(name: Seq<char>) -> Option<XpsTemplateFamily> {
    let n = normalized_region_name(name);
    if contains_seq(n, "c1s"@) {
        Some(XpsTemplateFamily::C1s)
    } else if contains_seq(n, "n1s"@) {
        Some(XpsTemplateFamily::N1s)
    } else if contains_seq(n, "o1s"@) {
        Some(XpsTemplateFamily::O1s)
    } else {
        None
    }
}

fn remove_spaces(s: &Vec<char>) -> (r: Vec<char>)
    ensures
        r@ == without_spaces(s@),
{
    let mut out: Vec<char> = Vec::new();
    let mut i: usize = 0;
    while i < s.len()
        invariant
            i <= s@.len(),
            out@ == without_spaces(s@.subrange(0, i as int)),
        decreases s.len() - i,
    {
        let ghost prefix = s@.subrange(0, i as int + 1);
        assert(prefix.drop_last() =~= s@.subrange(0, i as int));
        if s[i] != ' ' {
            out.push(s[i]);
        }
        i = i + 1;
    }
    assert(s@.subrange(0, s@.len() as int) =~= s@);
    out
}

/// The template a region's name selects.
pub fn template_family(region_name: &str) -> (r: Option<XpsTemplateFamily>)
    ensures
        r == spec_template_family(region_name@),
{
    let name = literal(region_name);
    let lower = to_ascii_lowercase(&name);
    let n = remove_spaces(&lower);
    if contains_chars(&n, &literal("c1s")) {
        Some(XpsTemplateFamily::C1s)
    } else if contains_chars(&n, &literal("n1s")) {
        Some(XpsTemplateFamily::N1s)
    } else if contains_chars(&n, &literal("o1s")) {
        Some(XpsTemplateFamily::O1s)
    } else {
        None
    }
}

/// The status line while a job of `kind` runs.
pub open spec fn running_status(kind: XpsJobKind) -> Seq<char> {
    match kind {
        XpsJobKind::Fit => "Fitting XPS peaks..."@,
        XpsJobKind::Bootstrap => "Running XPS Bootstrap diagnostics..."@,
    }
}

/// The refusal of a job of `kind` while another job runs.
pub open spec fn busy_message(kind: XpsJobKind) -> Seq<char> {
    match kind {
        XpsJobKind::Fit => "An XPS fit is already running; cancel it or wait for completion."@,
        XpsJobKind::Bootstrap => "An XPS analysis is already running."@,
    }
}

/// Start a job in the slot; one job runs at a time. On success the caller
/// launches the worker for `ticket`.
pub fn begin_xps_job(slot: &mut XpsJobSlot, ticket: XpsJobTicket) -> (r: Result<(), String>)
    ensures
        old(slot).job is Some ==> (r matches Err(m) && m@ == busy_message(ticket.kind)),
        old(slot).job is Some ==> final(slot).job == old(slot).job && final(slot).status@ == old(
            slot,
        ).status@,
        old(slot).job is None ==> r is Ok && final(slot).job == Some(ticket) && final(slot).status@
            == running_status(ticket.kind),
{
    if slot.job.is_some() {
        return Err(
            match ticket.kind {
                XpsJobKind::Fit => String::from_str(
                    "An XPS fit is already running; cancel it or wait for completion.",
                ),
                XpsJobKind::Bootstrap => String::from_str("An XPS analysis is already running."),
            },
        );
    }
    slot.job = Some(ticket);
    slot.status = match ticket.kind {
        XpsJobKind::Fit => String::from_str("Fitting XPS peaks..."),
        XpsJobKind::Bootstrap => String::from_str("Running XPS Bootstrap diagnostics..."),
    };
    Ok(())
}

/// A finished job's result still belongs to the document: the dataset
/// generation is the one the job started from, and the input of the region
/// (recomputed now, if the region can still be fitted) hashes as it did.
pub open spec fn result_is_current(
    job_epoch: u64,
    session_epoch: u64,
    current_input: Option<Seq<char>>,
    job_input: Seq<char>,
) -> bool {
    job_epoch == session_epoch && current_input == Some(job_input)
}

/// Whether a finished job's result still belongs to the document.
pub fn fit_result_is_current(
    job_epoch: u64,
    session_epoch: u64,
    current_input_sha256: Option<&String>,
    job_input_sha256: &String,
) -> (r: bool)
    ensures
        r == result_is_current(
            job_epoch,
            session_epoch,
            match current_input_sha256 {
                Some(h) => Some(h@),
                None => None,
            },
            job_input_sha256@,
        ),
{
    if job_epoch != session_epoch {
        return false;
    }
    match current_input_sha256 {
        Some(current) => {
            let a = crate::text::literal(current.as_str());
            crate::text::eq_str(&a, job_input_sha256.as_str())
        },
        None => false,
    }
}

/// The status line when a finished job's result is dropped as stale.
pub fn stale_result_status(kind: XpsJobKind) -> (m: String)
    ensures
        kind == XpsJobKind::Fit ==> m@ == "The XPS input changed while fitting; the result was discarded."@,
        kind == XpsJobKind::Bootstrap ==> m@
            == "The XPS fit changed during Bootstrap; the diagnostics were discarded."@,
{
    match kind {
        XpsJobKind::Fit => String::from_str(
            "The XPS input changed while fitting; the result was discarded.",
        ),
        XpsJobKind::Bootstrap => String::from_str(
            "The XPS fit changed during Bootstrap; the diagnostics were discarded.",
        ),
    }
}

/// The seed a Bootstrap run uses: the requested one, or for `0` the seed
/// derived from the fit's input hash.
pub fn bootstrap_seed(requested: u64, input_sha256: &str) -> (seed: u64)
    ensures
        requested != 0 ==> seed == requested,
        requested == 0 ==> seed == match crate::bootstrap::parse_hex_u64(
            crate::bootstrap::seed_text(input_sha256.spec_bytes()),
        ) {
            Some(v) => v,
            None => 1,
        },
{
    if requested == 0 {
        crate::bootstrap::seed_from_hash(input_sha256)
    } else {
        requested
    }
}


/// The regions measured at `measurement`, by position, in order.
/// `measurements[i]` is the measurement position of region `i`.
pub fn regions_of_measurement(measurements: &Vec<u64>, measurement: u64) -> (r: Vec<usize>)
    ensures
        r@ == Seq::new(measurements@.len(), |i: int| i as usize).filter(
            |i: usize| measurements@[i as int] == measurement,
        ),
{
    let ghost all = Seq::new(measurements@.len(), |i: int| i as usize);
    let ghost keep = |i: usize| measurements@[i as int] == measurement;
    let mut out: Vec<usize> = Vec::new();
    let mut i: usize = 0;
    while i < measurements.len()
        invariant
            i <= measurements@.len(),
            all == Seq::new(measurements@.len(), |i: int| i as usize),
            keep == (|i: usize| measurements@[i as int] == measurement),
            out@ == all.subrange(0, i as int).filter(keep),
        decreases measurements.len() - i,
    {
        proof {
            let upto = all.subrange(0, i as int + 1);
            assert(upto.drop_last() =~= all.subrange(0, i as int));
            assert(upto.last() == i);
            reveal(Seq::filter);
        }
        if measurements[i] == measurement {
            out.push(i);
        }
        i = i + 1;
    }
    assert(all.subrange(0, measurements@.len() as int) =~= all);
    out
}

/// The first region of `measurement` named (in any ASCII case) "survey".
pub open spec fn survey_at(regions: Seq<(u64, Vec<char>)>, measurement: u64, i: int) -> bool {
    &&& 0 <= i < regions.len()
    &&& regions[i].0 == measurement && lowercase(regions[i].1@) == lowercase("survey"@)
    &&& forall|j: int|
        0 <= j < i ==> !(regions[j].0 == measurement && lowercase(regions[j].1@) == lowercase("survey"@))
}

/// The first region of `measurement`.
pub open spec fn first_of(regions: Seq<(u64, Vec<char>)>, measurement: u64, i: int) -> bool {
    &&& 0 <= i < regions.len()
    &&& regions[i].0 == measurement
    &&& forall|j: int| 0 <= j < i ==> regions[j].0 != measurement
}

/// The region shown when a measurement position is chosen: its Survey, or
/// its first region when it has no Survey; `None` when the position has no
/// region. `regions` holds each region's measurement and name.
pub fn region_for_measurement(regions: &Vec<(u64, Vec<char>)>, measurement: u64) -> (r: Option<usize>)
    ensures
        match r {
            Some(i) => survey_at(regions@, measurement, i as int) || (!(exists|k: int|
                survey_at(regions@, measurement, k)) && first_of(regions@, measurement, i as int)),
            None => forall|j: int| 0 <= j < regions@.len() ==> #[trigger] regions@[j].0 != measurement,
        },
{
    let mut i: usize = 0;
    while i < regions.len()
        invariant
            i <= regions@.len(),
            forall|j: int|
                0 <= j < i ==> !(regions@[j].0 == measurement && lowercase(regions@[j].1@)
                    == lowercase("survey"@)),
        decreases regions.len() - i,
    {
        if regions[i].0 == measurement && eq_ignore_ascii_case(&regions[i].1, "survey") {
            return Some(i);
        }
        i = i + 1;
    }
    proof {
        assert forall|k: int| !survey_at(regions@, measurement, k) by {
            if 0 <= k < regions@.len() {
                assert(!(regions@[k].0 == measurement && lowercase(regions@[k].1@) == lowercase(
                    "survey"@,
                )));
            }
        }
    }
    let mut j: usize = 0;
    while j < regions.len()
        invariant
            j <= regions@.len(),
            forall|k: int| 0 <= k < j ==> regions@[k].0 != measurement,
            forall|k: int| !survey_at(regions@, measurement, k),
        decreases regions.len() - j,
    {
        if regions[j].0 == measurement {
            return Some(j);
        }
        j = j + 1;
    }
    None
}

/// Whether a region's name names the C 1s core level: lowercased and with
/// its spaces removed, it contains "c1s".
pub fn is_c1s_region(name: &Vec<char>) -> (r: bool)
    ensures
        r == contains_seq(normalized_region_name(name@), "c1s"@),
{
    let lowered = to_ascii_lowercase(name);
    let compact = remove_spaces(&lowered);
    contains_chars(&compact, &literal("c1s"))
}


/// The template depends on the region name only through its normalized form
/// (ASCII lower case, spaces removed): names that normalize alike select the
/// same template, and a normalized name containing "n1s" but not "c1s"
/// selects the N 1s template (and likewise "o1s" without "c1s" or "n1s"
/// selects O 1s, and "c1s" selects C 1s).
pub proof fn lemma_template_follows_the_normalized_name(a: Seq<char>, b: Seq<char>)
    ensures
        without_spaces(lowercase(a)) == without_spaces(lowercase(b)) ==> spec_template_family(a)
            == spec_template_family(b),
        contains_seq(without_spaces(lowercase(a)), "c1s"@) ==> spec_template_family(a) == Some(
            XpsTemplateFamily::C1s,
        ),
        !contains_seq(without_spaces(lowercase(a)), "c1s"@) && contains_seq(
            without_spaces(lowercase(a)),
            "n1s"@,
        ) ==> spec_template_family(a) == Some(XpsTemplateFamily::N1s),
        !contains_seq(without_spaces(lowercase(a)), "c1s"@) && !contains_seq(
            without_spaces(lowercase(a)),
            "n1s"@,
        ) && contains_seq(without_spaces(lowercase(a)), "o1s"@) ==> spec_template_family(a) == Some(
            XpsTemplateFamily::O1s,
        ),
        !contains_seq(without_spaces(lowercase(a)), "c1s"@) && !contains_seq(
            without_spaces(lowercase(a)),
            "n1s"@,
        ) && !contains_seq(without_spaces(lowercase(a)), "o1s"@) ==> spec_template_family(a) is None,
{
}

} // verus!
