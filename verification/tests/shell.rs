use plotx::xps_session::StepId;
use plotx::ui_state::{
    central_workspace_margin, resolve_reference_pick, sync_reference_pick, toggle_reference_pick,
    DatasetId, PhaseAxis, ReferencePick, ReferenceStep, free_object_rows, panel_tree_name, classify_open_path_with_header, desired_maximum_frame_latency,
    recovery_needed, reference_pick_cancelled_status, reference_pick_step,
    transition_ready_after_save, ReferencePickStep, ChromeGeometry, DesktopPlatform,
    OpenPathEntryType, RecentOpenKind, BODY_PT, CALLOUT_PT, CAPTION_PT, LARGE_TITLE_PT,
    SUBHEADLINE_PT, TITLE_1_PT, TITLE_2_PT, TITLE_3_PT,
};

const OPEN_HEADER_BYTES: usize = 4096;

#[test]
fn frame_latency_matches_platform_presentation_requirements() {
    assert_eq!(desired_maximum_frame_latency(DesktopPlatform::MacOs), None);
    assert_eq!(desired_maximum_frame_latency(DesktopPlatform::Windows), Some(1));
    assert_eq!(desired_maximum_frame_latency(DesktopPlatform::Linux), Some(1));
}

#[test]
fn recovery_is_not_rewritten_without_a_new_generation() {
    assert!(recovery_needed(true, 7, None));
    assert!(!recovery_needed(true, 7, Some(7)));
    assert!(recovery_needed(true, 8, Some(7)));
    assert!(!recovery_needed(false, 8, Some(7)));
}

#[test]
fn transition_waits_when_an_edit_lands_after_the_save_snapshot() {
    assert!(transition_ready_after_save(true, 7, 7));
    assert!(!transition_ready_after_save(true, 7, 8));
    assert!(!transition_ready_after_save(false, 7, 7));
}

#[test]
fn semantic_scale_matches_the_compact_macos_ramp() {
    assert_eq!(
        [
            LARGE_TITLE_PT as f32,
            TITLE_1_PT as f32,
            TITLE_2_PT as f32,
            TITLE_3_PT as f32,
            BODY_PT as f32,
            CALLOUT_PT as f32,
            SUBHEADLINE_PT as f32,
            CAPTION_PT as f32,
        ],
        [26.0, 22.0, 17.0, 15.0, 13.0, 12.0, 11.0, 10.0]
    );
}

#[test]
fn xps_text_signature_precedes_the_generic_txt_route() {
    let casa = b"Cycle 1:1:C 1s\n\tCharacteristic Energy eV\t1486.69\nName\t\tC 1s\nPosition\t\t284.8\nFWHM\t\t1.2\nArea\t\t10\nLineshape\t\tGL(30)\nK.E.\tCounts\tC 1s\tBackground\tEnvelope\t\tB.E.\tCPS\tC 1s\tBackground CPS\tEnvelope CPS\n";
    let mut header = [0_u8; OPEN_HEADER_BYTES];
    header[..casa.len()].copy_from_slice(casa);
    let kind = classify_open_path_with_header(
        "casa.txt",
        OpenPathEntryType::RegularFile,
        &header[..casa.len()],
    )
    .unwrap();
    assert_eq!(kind, RecentOpenKind::DataFile);

    let generic = b"energy,intensity\n1,2\n";
    let mut header = [0_u8; OPEN_HEADER_BYTES];
    header[..generic.len()].copy_from_slice(generic);
    let kind = classify_open_path_with_header(
        "generic.txt",
        OpenPathEntryType::RegularFile,
        &header[..generic.len()],
    )
    .unwrap();
    assert_eq!(kind, RecentOpenKind::DelimitedTable);
}

#[test]
fn platform_geometry_uses_the_desktop_radius_hierarchy() {
    assert_eq!(
        ChromeGeometry::for_platform(DesktopPlatform::MacOs),
        ChromeGeometry {
            control: 6,
            surface: 10,
        }
    );
    assert_eq!(
        ChromeGeometry::for_platform(DesktopPlatform::Windows),
        ChromeGeometry {
            control: 4,
            surface: 8,
        }
    );
    assert_eq!(
        ChromeGeometry::for_platform(DesktopPlatform::Linux),
        ChromeGeometry {
            control: 6,
            surface: 10,
        }
    );
}

#[test]
fn central_margin_preserves_sidebar_gaps_only_when_present() {
    let both = central_workspace_margin(true, true);
    assert_eq!((both.left, both.right), (8, 8));

    let primary_only = central_workspace_margin(true, false);
    assert_eq!((primary_only.left, primary_only.right), (8, 4));

    let neither = central_workspace_margin(false, false);
    assert_eq!((neither.left, neither.right), (4, 4));
}

#[test]
fn open_routing_by_extension_and_entry() {
    assert_eq!(
        classify_open_path_with_header("study.PLOTX", OpenPathEntryType::RegularFile, b""),
        Ok(RecentOpenKind::Project)
    );
    assert_eq!(
        classify_open_path_with_header("table.csv", OpenPathEntryType::RegularFile, b""),
        Ok(RecentOpenKind::DelimitedTable)
    );
    assert_eq!(
        classify_open_path_with_header("scan.vms", OpenPathEntryType::RegularFile, b""),
        Ok(RecentOpenKind::DataFile)
    );
    assert!(classify_open_path_with_header("folder", OpenPathEntryType::Directory, b"").is_err());
}

#[test]
fn a_reference_pick_commits_only_a_resolved_click_over_its_plot() {
    // armed, escape, pointer allowed, interacting, over plot, pressed, position found
    assert_eq!(reference_pick_step(false, true, true, false, true, true, true), ReferencePickStep::Idle);
    assert_eq!(reference_pick_step(true, true, false, true, false, true, true), ReferencePickStep::Cancel);
    assert_eq!(reference_pick_step(true, false, false, false, true, true, true), ReferencePickStep::Idle);
    assert_eq!(reference_pick_step(true, false, true, true, true, true, true), ReferencePickStep::Idle);
    assert_eq!(reference_pick_step(true, false, true, false, false, true, true), ReferencePickStep::Idle);
    assert_eq!(reference_pick_step(true, false, true, false, true, true, true), ReferencePickStep::Commit);
    assert_eq!(reference_pick_step(true, false, true, false, true, true, false), ReferencePickStep::Hover);
    assert_eq!(reference_pick_step(true, false, true, false, true, false, true), ReferencePickStep::Hover);
    assert!(ReferencePickStep::Hover.captures_pointer());
    assert!(ReferencePickStep::Commit.captures_pointer());
    assert!(!ReferencePickStep::Cancel.captures_pointer());
    assert!(!ReferencePickStep::Idle.captures_pointer());
    assert_eq!(reference_pick_cancelled_status(), "Reference pick cancelled.");
}

#[test]
fn panels_show_their_visible_label_before_their_name() {
    assert_eq!(panel_tree_name("(a)", true, "Spectra"), "(a)  Spectra");
    assert_eq!(panel_tree_name("(a)", false, "Spectra"), "Spectra");
    assert_eq!(panel_tree_name("", true, "Spectra"), "Spectra");
}

#[test]
fn free_objects_are_listed_from_the_top_of_the_stack() {
    assert_eq!(free_object_rows(&vec![false, true, false, false, true]), vec![3, 2, 0]);
    assert_eq!(free_object_rows(&vec![true, true]), Vec::<usize>::new());
    assert_eq!(free_object_rows(&Vec::new()), Vec::<usize>::new());
}

/// One dataset whose Direct pipeline holds a Phase step (1) and the added
/// Reference step (2).
fn reference_document() -> (Vec<DatasetId>, Vec<ReferenceStep>, DatasetId, StepId, StepId) {
    let dataset = DatasetId(41);
    let phase_step = StepId(1);
    let reference_step = StepId(2);
    let steps = vec![ReferenceStep { dataset, step: reference_step, axis: PhaseAxis::Direct }];
    (vec![dataset], steps, dataset, reference_step, phase_step)
}

#[test]
fn reference_pick_resolves_only_while_its_editor_is_expanded() {
    let (datasets, steps, dataset, step, _) = reference_document();
    let mut pick = None;
    let mut expanded = None;

    toggle_reference_pick(&mut pick, dataset, step);
    assert_eq!(pick, Some(ReferencePick { dataset, step }));
    // Armed but the editor is not expanded: not resolvable, and sync drops it.
    assert!(resolve_reference_pick(pick, expanded, &datasets, &steps).is_none());
    sync_reference_pick(&mut pick, expanded, &datasets, &steps);
    assert!(pick.is_none());

    expanded = Some((dataset, step));
    toggle_reference_pick(&mut pick, dataset, step);
    let resolved = resolve_reference_pick(pick, expanded, &datasets, &steps)
        .expect("expanded editor arms a valid pick");
    assert_eq!(resolved.dataset_index, 0);
    assert_eq!(resolved.axis, PhaseAxis::Direct);
    assert_eq!(resolved.pick, ReferencePick { dataset, step });

    // Collapsing the editor invalidates the pick; sync clears the arm state.
    expanded = None;
    assert!(resolve_reference_pick(pick, expanded, &datasets, &steps).is_none());
    sync_reference_pick(&mut pick, expanded, &datasets, &steps);
    assert!(pick.is_none());
}

#[test]
fn reference_pick_toggle_disarms_and_a_non_reference_step_never_resolves() {
    let (datasets, steps, dataset, step, phase_step) = reference_document();
    let mut pick = None;
    let mut expanded = Some((dataset, step));

    toggle_reference_pick(&mut pick, dataset, step);
    assert!(resolve_reference_pick(pick, expanded, &datasets, &steps).is_some());
    toggle_reference_pick(&mut pick, dataset, step);
    assert!(pick.is_none());

    // A pick armed for a step that is not a Reference step must not resolve.
    expanded = Some((dataset, phase_step));
    toggle_reference_pick(&mut pick, dataset, phase_step);
    assert!(resolve_reference_pick(pick, expanded, &datasets, &steps).is_none());
    sync_reference_pick(&mut pick, expanded, &datasets, &steps);
    assert!(pick.is_none());
}
