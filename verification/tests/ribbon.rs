use plotx::ribbon::{
    columns, group_order, icon_identifies, RibbonCell, RibbonColumn, WorkflowTab, density, narrowest_up_to, plan, shown_groups, GroupScale, RibbonDensity, TabPlan,
};

/// Four strictly narrowing scales, so every requested step is taken.
const LADDER: [u64; 4] = [100, 80, 60, 40];

fn total(widths: &[[u64; 4]], scales: &[GroupScale]) -> u64 {
    scales
        .iter()
        .enumerate()
        .map(|(index, scale)| widths[index][scale.index()])
        .sum()
}

#[test]
fn groups_step_down_lowest_priority_first() {
    let priorities = vec![0u8, 1, 2];
    let widths = vec![LADDER; 3];
    let plan = plan(&priorities, &widths, 280, 20);
    assert_eq!(
        plan.scales,
        vec![GroupScale::Large, GroupScale::Large, GroupScale::Medium]
    );
    assert_eq!(plan.shown, vec![true, true, true]);
}

#[test]
fn equal_priorities_step_down_from_the_right() {
    let priorities = vec![1u8, 1];
    let widths = vec![LADDER; 2];
    let plan = plan(&priorities, &widths, 180, 20);
    assert_eq!(plan.scales, vec![GroupScale::Large, GroupScale::Medium]);
}

#[test]
fn a_higher_priority_group_is_never_smaller_than_a_lower_one() {
    let priorities = vec![2u8, 0, 1, 3, 1];
    let widths = vec![LADDER; 5];
    let mut budget = 120;
    while budget <= 520 {
        let plan = plan(&priorities, &widths, budget, 20);
        for a in 0..priorities.len() {
            for b in 0..priorities.len() {
                if priorities[a] < priorities[b] {
                    assert!(
                        plan.scales[a].index() <= plan.scales[b].index(),
                        "budget {budget}: group {a} (priority {}) is at {:?} while group {b} \
                         (priority {}) is at {:?}",
                        priorities[a],
                        plan.scales[a],
                        priorities[b],
                        plan.scales[b]
                    );
                }
            }
        }
        if plan.shown.iter().all(|&shown| shown) {
            let total = total(&widths, &plan.scales);
            assert!(total <= budget, "budget {budget}: plan needs {total}");
        }
        budget += 7;
    }
}

#[test]
fn a_level_that_does_not_narrow_a_group_is_skipped() {
    let priorities = vec![0u8, 1];
    let widths = vec![LADDER, [58, 70, 22, 58]];
    let plan = plan(&priorities, &widths, 150, 20);
    assert_eq!(plan.scales, vec![GroupScale::Medium, GroupScale::Large]);
}

#[test]
fn the_more_menu_opens_only_after_every_group_is_collapsed() {
    let priorities = vec![0u8, 1];
    let widths = vec![LADDER; 2];
    let plan = plan(&priorities, &widths, 70, 20);
    assert_eq!(plan.scales, vec![GroupScale::Collapsed; 2]);
    assert_eq!(plan.shown, vec![true, false]);
}

#[test]
fn overflow_never_shows_a_group_outranked_by_a_hidden_one() {
    let priorities = vec![2u8, 0, 1, 3];
    let widths = vec![40, 50, 30, 20];
    let shown = shown_groups(&priorities, &widths, 90);
    assert_eq!(shown, vec![false, true, true, false]);
}

#[test]
fn an_oversized_group_does_not_dam_its_equal_priority_peers() {
    let priorities = vec![1u8, 1, 2];
    let widths = vec![100, 30, 10];
    let shown = shown_groups(&priorities, &widths, 40);
    assert_eq!(shown, vec![false, true, false]);
}

#[test]
fn density_is_full_exactly_when_the_large_row_fits() {
    let priorities = vec![0u8, 1, 2];
    let widths = vec![LADDER; 3];
    let fits = plan(&priorities, &widths, 301, 60);
    assert_eq!(density(true, &fits), RibbonDensity::Full);
    let exact = plan(&priorities, &widths, 300, 60);
    assert_eq!(density(true, &exact), RibbonDensity::Full);
    let scaled = plan(&priorities, &widths, 299, 60);
    assert_eq!(density(true, &scaled), RibbonDensity::Scaled);
    let narrow = plan(&priorities, &widths, 100, 60);
    assert_eq!(density(true, &narrow), RibbonDensity::Scaled);
    assert_eq!(density(false, &fits), RibbonDensity::Collapsed);
}

#[test]
fn a_tab_without_groups_is_full() {
    let plan = plan(&Vec::new(), &Vec::new(), 0, 20);
    assert_eq!(
        plan,
        TabPlan {
            scales: Vec::new(),
            shown: Vec::new()
        }
    );
    assert!(plan.is_full());
}

#[test]
fn narrowest_prefers_the_richer_scale_on_ties() {
    assert_eq!(narrowest_up_to(&[50, 50, 50, 50], GroupScale::Collapsed), GroupScale::Large);
    assert_eq!(narrowest_up_to(&[58, 70, 22, 58], GroupScale::Medium), GroupScale::Large);
    assert_eq!(narrowest_up_to(&[58, 70, 22, 58], GroupScale::Collapsed), GroupScale::Small);
    assert_eq!(narrowest_up_to(&LADDER, GroupScale::Small), GroupScale::Small);
}

#[test]
fn the_more_menu_keeps_its_reserved_width() {
    // Collapsed widths 40 each; with 60 reserved for More out of 100, only
    // the most important group stays.
    let priorities = vec![1u8, 0, 2];
    let widths = vec![LADDER; 3];
    let plan = plan(&priorities, &widths, 100, 60);
    assert_eq!(plan.scales, vec![GroupScale::Collapsed; 3]);
    assert_eq!(plan.shown, vec![false, true, false]);
    // A reservation wider than the budget leaves no room at all.
    let none = plan_with_more(&priorities, &widths, 100, 500);
    assert_eq!(none.shown, vec![false, false, false]);
}

fn plan_with_more(priorities: &Vec<u8>, widths: &Vec<[u64; 4]>, budget: u64, more: u64) -> TabPlan {
    plan(priorities, widths, budget, more)
}

#[test]
fn ribbon_groups_follow_each_tabs_workflow() {
    assert_eq!(group_order(WorkflowTab::Data, "Import"), 0);
    assert_eq!(group_order(WorkflowTab::Analyze, "Peaks"), 4);
    assert_eq!(group_order(WorkflowTab::Analyze, "Interpret"), 10);
    assert_eq!(group_order(WorkflowTab::Arrange, "Canvas"), 7);
    assert_eq!(group_order(WorkflowTab::Figure, "Canvas"), 4);
    assert_eq!(group_order(WorkflowTab::View, "Import"), u8::MAX);
    assert_eq!(group_order(WorkflowTab::Process, "recipes"), u8::MAX);
}

#[test]
fn an_icon_names_a_command_only_when_no_groupmate_shares_it() {
    let icons = vec![Some('a'), Some('b'), Some('a'), None];
    assert!(!icon_identifies(&icons, 0));
    assert!(icon_identifies(&icons, 1));
    assert!(!icon_identifies(&icons, 2));
    assert!(!icon_identifies(&icons, 3));
}

fn cell(entry: usize, scale: GroupScale) -> RibbonCell {
    RibbonCell { entry, scale }
}

#[test]
fn large_columns_hold_one_tile_each() {
    let icons = vec![Some('a'), None, Some('c')];
    let medium = vec![90, 120, 70];
    let plan = columns(&icons, &medium, 100, 28, GroupScale::Large);
    assert_eq!(
        plan,
        vec![
            RibbonColumn { cells: vec![cell(0, GroupScale::Large)], width: 100 },
            RibbonColumn { cells: vec![cell(1, GroupScale::Large)], width: 100 },
            RibbonColumn { cells: vec![cell(2, GroupScale::Large)], width: 100 },
        ]
    );
}

#[test]
fn stacked_columns_take_their_widest_row() {
    let icons = vec![Some('a'), None, Some('c')];
    let medium = vec![90, 120, 70];
    let plan = columns(&icons, &medium, 100, 28, GroupScale::Medium);
    assert_eq!(
        plan,
        vec![
            RibbonColumn {
                cells: vec![cell(0, GroupScale::Medium), cell(1, GroupScale::Medium)],
                width: 120,
            },
            RibbonColumn { cells: vec![cell(2, GroupScale::Medium)], width: 70 },
        ]
    );
}

#[test]
fn small_keeps_a_row_for_commands_an_icon_cannot_name() {
    let icons = vec![Some('a'), Some('b'), Some('b'), None, Some('e')];
    let medium = vec![90, 120, 110, 60, 70];
    let plan = columns(&icons, &medium, 100, 28, GroupScale::Small);
    assert_eq!(
        plan,
        vec![
            RibbonColumn {
                cells: vec![cell(0, GroupScale::Small), cell(1, GroupScale::Medium)],
                width: 120,
            },
            RibbonColumn {
                cells: vec![cell(2, GroupScale::Medium), cell(3, GroupScale::Medium)],
                width: 110,
            },
            RibbonColumn { cells: vec![cell(4, GroupScale::Small)], width: 28 },
        ]
    );
    assert!(columns(&Vec::new(), &Vec::new(), 100, 28, GroupScale::Small).is_empty());
}
