use plotx::bootstrap::{check_bootstrap_inputs, residual_signs, seed_from_hash, XorShift64, XpsBootstrapOptions};
use plotx::constraints::{compile_links, dependency_order, number_free_parameters, LinkProblem,
    ParameterCheck, ValueProblem, ParameterKind, PeakConstraintKey, PeakLinks};
use plotx::provenance::{digest_hex, fit_input_message, xps_input_sha256};
use plotx::xps::{
    allocate_id, apply_component_edit, fit_parameter_labels, linked_label, new_component_label,
    ComponentEdit, map_fit_error, match_fitted_components, other,
    summary_matches_invocation, validate_xps_constraint_structure, validate_xps_links, ConstrainedLineFitError,
    XpsComponentId, XpsFitError, XpsPeakLinks,
};
use plotx::xps_session::{
    begin_xps_job, bootstrap_seed, is_c1s_region, region_for_measurement, regions_of_measurement, fit_result_is_current, stale_result_status, add_step, cancel_xps_fit, move_step, remove_step, set_step_enabled, template_family,
    xps_fit_error, StepEditError, StepId, XpsJobKind, XpsJobSlot, XpsJobTicket, XpsStep,
    XpsTemplateFamily,
};
use sha2::{Digest, Sha256};

fn peak(id: u64) -> XpsPeakLinks {
    XpsPeakLinks {
        id: XpsComponentId::new(id),
        center: None,
        fwhm: None,
        area: None,
    }
}

fn id(value: u64) -> Option<XpsComponentId> {
    Some(XpsComponentId::new(value))
}

fn invalid(message: &str) -> Result<(), XpsFitError> {
    Err(XpsFitError::InvalidConstraints(message.to_string()))
}

#[test]
fn link_graphs_are_checked() {
    assert_eq!(validate_xps_links(&Vec::new()), Ok(()));
    let mut linked = vec![peak(1), peak(2)];
    linked[1].center = id(1);
    linked[1].area = id(1);
    assert_eq!(validate_xps_links(&linked), Ok(()));

    let mut cycle = vec![peak(1), peak(2)];
    cycle[0].fwhm = id(2);
    cycle[1].fwhm = id(1);
    assert_eq!(validate_xps_links(&cycle), invalid("parameter links contain a cycle"));

    let mut missing = vec![peak(1), peak(2)];
    missing[1].center = id(99);
    assert_eq!(
        validate_xps_links(&missing),
        invalid("a parameter link targets a missing component")
    );

    let mut own = vec![peak(1), peak(2)];
    own[0].fwhm = id(1);
    assert_eq!(validate_xps_links(&own), invalid("a component cannot link to itself"));

    let duplicate = vec![peak(1), peak(1)];
    assert_eq!(validate_xps_links(&duplicate), invalid("component keys must be unique"));
}

#[test]
fn dependency_order_evaluates_targets_first() {
    let links = vec![
        PeakLinks {
            key: PeakConstraintKey(5),
            position: Some(PeakConstraintKey(7)),
            fwhm: None,
            area: None,
        },
        PeakLinks {
            key: PeakConstraintKey(7),
            position: None,
            fwhm: None,
            area: None,
        },
    ];
    assert_eq!(dependency_order(&links, ParameterKind::Position), Ok(vec![1, 0]));
    assert_eq!(dependency_order(&links, ParameterKind::Area), Ok(vec![0, 1]));
    assert_eq!(LinkProblem::Cycle.message(), "parameter links contain a cycle");
}

#[test]
fn fit_errors_keep_their_meaning_and_messages() {
    assert_eq!(
        map_fit_error(ConstrainedLineFitError::InvalidConstraints("x".into())),
        XpsFitError::InvalidConstraints("x".into())
    );
    assert_eq!(
        map_fit_error(ConstrainedLineFitError::Cancelled),
        XpsFitError::Cancelled
    );
    assert_eq!(
        XpsFitError::InvalidConstraints("a cycle".into()).message(),
        "XPS peak constraints are invalid: a cycle"
    );
    assert_eq!(
        ConstrainedLineFitError::InvalidInput.message(),
        "line-fit arrays or options are invalid"
    );
    assert_eq!(
        xps_fit_error(&XpsFitError::Cancelled),
        "The XPS fit was cancelled."
    );
    assert_eq!(
        xps_fit_error(&XpsFitError::DidNotConverge),
        "The XPS fit did not converge. Review initial peaks and constraints."
    );
    assert_eq!(
        xps_fit_error(&XpsFitError::InvalidBackground),
        "XPS background specification is invalid"
    );
}

#[test]
fn component_ids_advance_and_saturate() {
    let mut next = 7;
    assert_eq!(allocate_id(&mut next), XpsComponentId::new(7));
    assert_eq!(next, 8);
    let mut last = u64::MAX;
    assert_eq!(allocate_id(&mut last), XpsComponentId::new(u64::MAX));
    assert_eq!(last, u64::MAX);
    let choices = vec![XpsComponentId::new(3), XpsComponentId::new(4)];
    assert_eq!(other(XpsComponentId::new(3), &choices), XpsComponentId::new(4));
    assert_eq!(other(XpsComponentId::new(4), &choices), XpsComponentId::new(3));
    assert_eq!(other(XpsComponentId::new(3), &vec![XpsComponentId::new(3)]), XpsComponentId::new(3));
}

fn steps() -> (Vec<XpsStep<&'static str>>, u64) {
    let mut steps = Vec::new();
    let mut next = 1;
    add_step(&mut steps, &mut next, "window");
    add_step(&mut steps, &mut next, "smooth");
    add_step(&mut steps, &mut next, "normalize");
    (steps, next)
}

fn kinds(steps: &[XpsStep<&'static str>]) -> Vec<&'static str> {
    steps.iter().map(|step| step.kind).collect()
}

#[test]
fn processing_steps_are_added_with_fresh_ids() {
    let (steps, next) = steps();
    assert_eq!(next, 4);
    assert_eq!(
        steps.iter().map(|step| step.id).collect::<Vec<_>>(),
        vec![StepId(1), StepId(2), StepId(3)]
    );
    assert!(steps.iter().all(|step| step.enabled));
    let mut saturated = u64::MAX;
    let mut list = Vec::new();
    assert_eq!(add_step(&mut list, &mut saturated, "window"), StepId(u64::MAX));
    assert_eq!(saturated, u64::MAX);
}

#[test]
fn processing_steps_are_removed_enabled_and_moved() {
    let (mut list, _) = steps();
    assert_eq!(remove_step(&mut list, StepId(2)), Ok(()));
    assert_eq!(kinds(&list), vec!["window", "normalize"]);
    assert_eq!(remove_step(&mut list, StepId(2)), Err(StepEditError::StepMissing));
    assert_eq!(kinds(&list), vec!["window", "normalize"]);
    assert_eq!(
        StepEditError::StepMissing.message(),
        "The XPS processing step is no longer available."
    );

    let (mut list, _) = steps();
    assert_eq!(set_step_enabled(&mut list, StepId(3), false), Ok(()));
    assert_eq!(
        list.iter().map(|step| step.enabled).collect::<Vec<_>>(),
        vec![true, true, false]
    );
    assert_eq!(set_step_enabled(&mut list, StepId(9), false), Err(StepEditError::StepMissing));

    let (mut list, _) = steps();
    assert_eq!(move_step(&mut list, StepId(1), 1), Ok(()));
    assert_eq!(kinds(&list), vec!["smooth", "window", "normalize"]);
    assert_eq!(move_step(&mut list, StepId(1), -1), Ok(()));
    assert_eq!(kinds(&list), vec!["window", "smooth", "normalize"]);
    assert_eq!(move_step(&mut list, StepId(1), isize::MAX), Ok(()));
    assert_eq!(kinds(&list), vec!["normalize", "smooth", "window"]);
    assert_eq!(move_step(&mut list, StepId(1), isize::MIN), Ok(()));
    assert_eq!(kinds(&list), vec!["window", "smooth", "normalize"]);
    assert_eq!(move_step(&mut list, StepId(2), 0), Ok(()));
    assert_eq!(kinds(&list), vec!["window", "smooth", "normalize"]);
    assert_eq!(move_step(&mut list, StepId(8), 1), Err(StepEditError::StepMissing));
}

#[test]
fn cancelling_empties_the_job_slot() {
    let mut slot = XpsJobSlot {
        job: Some(XpsJobTicket {
            dataset: 1,
            region: 2,
            kind: XpsJobKind::Fit,
        }),
        status: "Fitting XPS peaks...".to_string(),
    };
    assert!(cancel_xps_fit(&mut slot));
    assert_eq!(slot.job, None);
    assert_eq!(slot.status, "XPS analysis cancelled.");
    slot.status = "Idle".to_string();
    assert!(!cancel_xps_fit(&mut slot));
    assert_eq!(slot.status, "Idle");
}

#[test]
fn region_names_select_templates() {
    assert_eq!(template_family("C 1s"), Some(XpsTemplateFamily::C1s));
    assert_eq!(template_family("Survey N1S wide"), Some(XpsTemplateFamily::N1s));
    assert_eq!(template_family("O 1 s"), Some(XpsTemplateFamily::O1s));
    assert_eq!(template_family("Si 2p"), None);
    assert_eq!(template_family("c1s n1s"), Some(XpsTemplateFamily::C1s));
}

#[test]
fn bootstrap_inputs_and_seeds() {
    assert_eq!(XpsBootstrapOptions::default(), XpsBootstrapOptions { samples: 500, seed: 1 });
    let options = XpsBootstrapOptions { samples: 99, seed: 1 };
    assert_eq!(check_bootstrap_inputs(&options, 3, 3, 3), Err(XpsFitError::InvalidInput));
    let options = XpsBootstrapOptions { samples: 100, seed: 1 };
    assert_eq!(check_bootstrap_inputs(&options, 3, 3, 3), Ok(()));
    assert_eq!(check_bootstrap_inputs(&options, 3, 2, 3), Err(XpsFitError::InvalidInput));

    assert_eq!(seed_from_hash("00000000000000ff0123"), 255);
    assert_eq!(seed_from_hash("abc"), 0xabc);
    assert_eq!(seed_from_hash("not hex"), 1);
    assert_eq!(seed_from_hash(""), 1);

    let mut rng = XorShift64::new(1);
    let first = rng.next_u64();
    let mut x: u64 = 1;
    x ^= x << 13;
    x ^= x >> 7;
    x ^= x << 17;
    assert_eq!(first, x);
    assert_ne!(XorShift64::new(0).next_u64(), 0);
}

#[test]
fn input_hash_covers_region_arrays_and_invocation() {
    let energy = vec![284.0f64.to_bits(), 285.0f64.to_bits()];
    let intensity = vec![10.0f64.to_bits(), 12.0f64.to_bits()];
    let invocation = br#"{"peaks":[]}"#.to_vec();
    let hash = xps_input_sha256(3, &energy, &intensity, &invocation);

    let mut digest = Sha256::new();
    digest.update(3u64.to_le_bytes());
    digest.update(2u64.to_le_bytes());
    for value in energy.iter().chain(&intensity) {
        digest.update(value.to_le_bytes());
    }
    digest.update(&invocation);
    let expected: String = digest
        .finalize()
        .iter()
        .map(|byte| format!("{byte:02x}"))
        .collect();
    assert_eq!(hash, expected);
    assert_eq!(hash.len(), 64);
    assert_ne!(hash, xps_input_sha256(4, &energy, &intensity, &invocation));
}

#[test]
fn link_validity_follows_components_when_they_are_reordered() {
    let mut linked = vec![peak(1), peak(2), peak(3)];
    linked[1].center = id(1);
    linked[2].fwhm = id(2);
    let reordered = vec![linked[2], linked[0], linked[1]];
    assert_eq!(validate_xps_links(&linked), Ok(()));
    assert_eq!(validate_xps_links(&reordered), Ok(()));

    let mut cyclic = linked.clone();
    cyclic[1].fwhm = id(3);
    let reordered = vec![cyclic[1], cyclic[2], cyclic[0]];
    assert!(validate_xps_links(&cyclic).is_err());
    assert!(validate_xps_links(&reordered).is_err());
}

#[test]
fn dependency_order_places_each_chain_deepest_first() {
    let link = |key: u64, position: Option<u64>| PeakLinks {
        key: PeakConstraintKey(key),
        position: position.map(PeakConstraintKey),
        fwhm: None,
        area: None,
    };
    // 0 -> 2 -> 3, 1 -> 3, 4 alone.
    let links = vec![link(10, Some(12)), link(11, Some(13)), link(12, Some(13)), link(13, None), link(14, None)];
    assert_eq!(dependency_order(&links, ParameterKind::Position), Ok(vec![3, 2, 0, 1, 4]));
    let compiled = compile_links(&links).unwrap();
    assert_eq!(compiled.position_order, vec![3, 2, 0, 1, 4]);
    assert_eq!(compiled.fwhm_order, vec![0, 1, 2, 3, 4]);
}

#[test]
fn one_job_runs_at_a_time() {
    let mut slot = XpsJobSlot {
        job: None,
        status: String::new(),
    };
    let fit = XpsJobTicket {
        dataset: 1,
        region: 2,
        kind: XpsJobKind::Fit,
    };
    assert_eq!(begin_xps_job(&mut slot, fit), Ok(()));
    assert_eq!(slot.status, "Fitting XPS peaks...");
    let bootstrap = XpsJobTicket {
        kind: XpsJobKind::Bootstrap,
        ..fit
    };
    assert_eq!(
        begin_xps_job(&mut slot, bootstrap),
        Err("An XPS analysis is already running.".to_string())
    );
    assert_eq!(
        begin_xps_job(&mut slot, fit),
        Err("An XPS fit is already running; cancel it or wait for completion.".to_string())
    );
    assert_eq!(slot.job, Some(fit));
    assert!(cancel_xps_fit(&mut slot));
    assert_eq!(begin_xps_job(&mut slot, bootstrap), Ok(()));
    assert_eq!(slot.status, "Running XPS Bootstrap diagnostics...");
}

#[test]
fn stale_results_are_recognised() {
    let hash = "ab".to_string();
    assert!(fit_result_is_current(3, 3, Some(&hash), &hash));
    assert!(!fit_result_is_current(3, 4, Some(&hash), &hash));
    assert!(!fit_result_is_current(3, 3, Some(&"ac".to_string()), &hash));
    assert!(!fit_result_is_current(3, 3, None, &hash));
    assert_eq!(
        stale_result_status(XpsJobKind::Fit),
        "The XPS input changed while fitting; the result was discarded."
    );
    assert_eq!(bootstrap_seed(7, "ff"), 7);
    assert_eq!(bootstrap_seed(0, "ff"), 255);
}

fn ids(values: &[u64]) -> Vec<XpsComponentId> {
    values.iter().map(|&value| XpsComponentId::new(value)).collect()
}

#[test]
fn each_peak_reports_four_labelled_parameters() {
    let labels = vec!["C 1s".to_string(), "O=C".to_string()];
    assert_eq!(
        fit_parameter_labels(&labels),
        vec![
            "C 1s center",
            "C 1s FWHM",
            "C 1s area",
            "C 1s fraction",
            "O=C center",
            "O=C FWHM",
            "O=C area",
            "O=C fraction",
        ]
    );
    assert!(fit_parameter_labels(&Vec::new()).is_empty());
}

#[test]
fn stored_peaks_are_found_by_identity() {
    assert_eq!(match_fitted_components(&ids(&[7, 3]), &ids(&[3, 9, 7, 3])), Ok(vec![2, 0]));
    assert_eq!(match_fitted_components(&ids(&[]), &ids(&[1])), Ok(vec![]));
    assert_eq!(
        match_fitted_components(&ids(&[7, 4]), &ids(&[7, 3])),
        Err(XpsFitError::InvalidConstraints(
            "persisted result does not match its component IDs".into()
        ))
    );
}

#[test]
fn a_summary_must_follow_its_invocation() {
    assert!(summary_matches_invocation(&ids(&[1, 2]), &ids(&[1, 2]), 8));
    assert!(summary_matches_invocation(&ids(&[]), &ids(&[]), 0));
    assert!(!summary_matches_invocation(&ids(&[1, 2]), &ids(&[2, 1]), 8));
    assert!(!summary_matches_invocation(&ids(&[1, 2]), &ids(&[1, 2]), 7));
    assert!(!summary_matches_invocation(&ids(&[1, 2]), &ids(&[1, 2]), 9));
    assert!(!summary_matches_invocation(&ids(&[1, 2]), &ids(&[1]), 4));
}

#[test]
fn residual_signs_follow_the_parity_of_each_draw() {
    let mut generator = XorShift64::new(1);
    let signs = residual_signs(&mut generator, 5);
    assert_eq!(signs.len(), 5);
    // The first state after seed 1 is 0x4082_2041, which is odd.
    assert!(signs[0]);
    let mut reference = XorShift64::new(1);
    for sign in &signs {
        assert_eq!(*sign, reference.next_u64() & 1 == 1);
    }
    assert_eq!(generator.next_u64(), reference.next_u64());
    assert!(residual_signs(&mut XorShift64::new(9), 0).is_empty());
}

#[test]
fn free_parameters_are_numbered_in_component_order() {
    let checks = vec![
        ParameterCheck::Free { bounds_valid: true },
        ParameterCheck::Fixed { finite: true },
        ParameterCheck::Free { bounds_valid: true },
        ParameterCheck::Linked { finite: true },
        ParameterCheck::Free { bounds_valid: true },
        ParameterCheck::Linked { finite: true },
    ];
    assert_eq!(
        number_free_parameters(&checks),
        Ok(vec![Some(0), None, Some(1), None, Some(2), None])
    );
    assert_eq!(number_free_parameters(&Vec::new()), Ok(vec![]));
}

#[test]
fn the_first_invalid_parameter_is_reported() {
    let checks = vec![
        ParameterCheck::Free { bounds_valid: true },
        ParameterCheck::Linked { finite: false },
        ParameterCheck::Free { bounds_valid: false },
    ];
    assert_eq!(number_free_parameters(&checks), Err(ValueProblem::NotFinite));
    let checks = vec![ParameterCheck::Fixed { finite: true }, ParameterCheck::Free { bounds_valid: false }, ParameterCheck::Fixed { finite: false }];
    let problem = number_free_parameters(&checks).unwrap_err();
    assert_eq!(problem, ValueProblem::FreeBounds);
    assert_eq!(
        problem.message(),
        "free parameter bounds must be ordered and contain the initial value"
    );
    assert_eq!(ValueProblem::NotFinite.message(), "parameter values must be finite");
}

#[test]
fn digests_read_as_two_lowercase_digits_per_byte() {
    assert_eq!(digest_hex(&vec![0x00, 0xab, 0x0f, 0xff, 0x90]), "00ab0fff90");
    assert_eq!(digest_hex(&Vec::new()), "");
}

#[test]
fn the_fit_message_lists_region_length_values_and_invocation() {
    let message = fit_input_message(7, &vec![1, 2], &vec![0x0102], &b"{}".to_vec());
    let mut expected = Vec::new();
    expected.extend_from_slice(&7u64.to_le_bytes());
    expected.extend_from_slice(&2u64.to_le_bytes());
    expected.extend_from_slice(&1u64.to_le_bytes());
    expected.extend_from_slice(&2u64.to_le_bytes());
    expected.extend_from_slice(&0x0102u64.to_le_bytes());
    expected.extend_from_slice(b"{}");
    assert_eq!(message, expected);
}

fn linked(id: u64, to: u64) -> XpsPeakLinks {
    let reference = Some(XpsComponentId::new(to));
    XpsPeakLinks { id: XpsComponentId::new(id), center: reference, fwhm: reference, area: reference }
}

fn ids_of(peaks: &[XpsPeakLinks]) -> Vec<u64> {
    peaks.iter().map(|peak| peak.id.0).collect()
}

#[test]
fn component_edits_reshape_the_list() {
    let mut peaks = vec![peak(1), peak(2)];
    let mut next = 3;
    apply_component_edit(&mut peaks, &mut next, ComponentEdit::CopyLinked(0));
    assert_eq!(ids_of(&peaks), vec![1, 2, 3]);
    assert_eq!(peaks[2].center, Some(XpsComponentId::new(1)));
    assert_eq!(peaks[2].fwhm, Some(XpsComponentId::new(1)));
    assert_eq!(peaks[2].area, Some(XpsComponentId::new(1)));
    assert_eq!(next, 4);
    assert_eq!(validate_xps_links(&peaks), Ok(()));

    apply_component_edit(&mut peaks, &mut next, ComponentEdit::Move { from: 2, to: 1 });
    assert_eq!(ids_of(&peaks), vec![1, 3, 2]);
    assert_eq!(validate_xps_links(&peaks), Ok(()));

    apply_component_edit(&mut peaks, &mut next, ComponentEdit::Remove(2));
    assert_eq!(ids_of(&peaks), vec![1, 3]);
    assert_eq!(next, 4);

    apply_component_edit(&mut peaks, &mut next, ComponentEdit::AddIndependent);
    assert_eq!(ids_of(&peaks), vec![1, 3, 4]);
    assert_eq!(peaks[2].center, None);
    assert_eq!(next, 5);
    assert_eq!(validate_xps_links(&peaks), Ok(()));

    let mut full = vec![linked(7, 1)];
    let mut saturated = u64::MAX;
    apply_component_edit(&mut full, &mut saturated, ComponentEdit::AddIndependent);
    assert_eq!(ids_of(&full), vec![7, u64::MAX]);
    assert_eq!(saturated, u64::MAX);
}

#[test]
fn new_and_copied_components_are_labelled() {
    assert_eq!(new_component_label(0), "Peak 1");
    assert_eq!(new_component_label(11), "Peak 12");
    assert_eq!(linked_label("C-C"), "C-C linked");
}

/// A free parameter's values are valid when they are finite, the bounds are
/// ordered and they hold the initial value.
fn free_check(initial: f64, bounds: [f64; 2]) -> ParameterCheck {
    ParameterCheck::Free {
        bounds_valid: initial.is_finite()
            && bounds.iter().all(|value| value.is_finite())
            && bounds[0] < bounds[1]
            && bounds[0] <= initial
            && initial <= bounds[1],
    }
}

/// The link structure and value checks of a main component (1, all free)
/// and a component (2) linked to it in center, FWHM and area.
fn linked_invocation() -> (Vec<XpsPeakLinks>, Vec<ParameterCheck>) {
    let links = vec![peak(1), linked(2, 1)];
    let checks = vec![
        free_check(285.1, [284.5, 285.5]),
        free_check(1.1, [0.8, 2.0]),
        free_check(100.0, [0.0, 1_000.0]),
        ParameterCheck::Linked { finite: true },
        ParameterCheck::Linked { finite: true },
        ParameterCheck::Linked { finite: true },
    ];
    (links, checks)
}

#[test]
fn missing_self_and_incompatible_bounds_are_rejected() {
    let (mut links, checks) = linked_invocation();
    assert_eq!(validate_xps_constraint_structure(&links, &checks), Ok(()));
    links[1].center = Some(XpsComponentId::new(99));
    assert!(matches!(
        validate_xps_constraint_structure(&links, &checks),
        Err(XpsFitError::InvalidConstraints(_))
    ));

    let (mut links, checks) = linked_invocation();
    links[0].fwhm = Some(links[0].id);
    assert!(matches!(
        validate_xps_constraint_structure(&links, &checks),
        Err(XpsFitError::InvalidConstraints(_))
    ));

    let (links, mut checks) = linked_invocation();
    checks[0] = free_check(285.0, [286.0, 284.0]);
    assert!(matches!(
        validate_xps_constraint_structure(&links, &checks),
        Err(XpsFitError::InvalidConstraints(_))
    ));
}

#[test]
fn constraint_problems_are_reported_links_first() {
    let (mut links, mut checks) = linked_invocation();
    links[0].fwhm = Some(links[0].id);
    checks[0] = free_check(285.0, [286.0, 284.0]);
    assert_eq!(
        validate_xps_constraint_structure(&links, &checks),
        Err(XpsFitError::InvalidConstraints("a component cannot link to itself".into()))
    );
    let (links, mut checks) = linked_invocation();
    checks[0] = free_check(285.0, [286.0, 284.0]);
    assert_eq!(
        validate_xps_constraint_structure(&links, &checks),
        Err(XpsFitError::InvalidConstraints(
            "free parameter bounds must be ordered and contain the initial value".into()
        ))
    );
    assert_eq!(validate_xps_constraint_structure(&Vec::new(), &Vec::new()), Ok(()));
}

fn chars(text: &str) -> Vec<char> {
    text.chars().collect()
}

#[test]
fn a_measurement_shows_its_survey_first() {
    let regions = vec![
        (1, chars("C 1s")),
        (2, chars("O 1s")),
        (2, chars("SURVEY")),
        (1, chars("Survey")),
        (3, chars("N 1s")),
        (3, chars("C 1s")),
    ];
    assert_eq!(region_for_measurement(&regions, 1), Some(3));
    assert_eq!(region_for_measurement(&regions, 2), Some(2));
    // No Survey at this position: its first region.
    assert_eq!(region_for_measurement(&regions, 3), Some(4));
    assert_eq!(region_for_measurement(&regions, 4), None);
}

#[test]
fn regions_are_grouped_by_measurement_position() {
    assert_eq!(regions_of_measurement(&vec![1, 2, 2, 1, 3], 1), vec![0, 3]);
    assert_eq!(regions_of_measurement(&vec![1, 2, 2, 1, 3], 2), vec![1, 2]);
    assert!(regions_of_measurement(&vec![1, 2], 5).is_empty());
}

#[test]
fn charge_referencing_needs_a_c1s_region() {
    assert!(is_c1s_region(&chars("C 1s")));
    assert!(is_c1s_region(&chars("c1s high res")));
    assert!(is_c1s_region(&chars("Region C1S")));
    assert!(!is_c1s_region(&chars("O 1s")));
    assert!(!is_c1s_region(&chars("C 2p")));
}
