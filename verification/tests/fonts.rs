use plotx::fonts::{emphasized_family, emphasized_heads, preferred_proportional, prioritize, PlatformFaces};

fn family(names: &[&str]) -> Vec<Vec<char>> {
    names.iter().map(|name| name.chars().collect()).collect()
}

fn text(family: &[Vec<char>]) -> Vec<String> {
    family.iter().map(|name| name.iter().collect()).collect()
}

/// A portable proportional family after the icon font joined it.
fn portable() -> Vec<Vec<char>> {
    family(&["Ubuntu-Light", "phosphor", "NotoEmoji-Regular", "emoji-icon-font"])
}

const ALL_FACES: PlatformFaces =
    PlatformFaces { ui_regular: true, ui_semibold: true, cjk_regular: true, cjk_semibold: true };

const NO_FACES: PlatformFaces =
    PlatformFaces { ui_regular: false, ui_semibold: false, cjk_regular: false, cjk_semibold: false };

#[test]
fn system_faces_lead_the_proportional_family() {
    let mut proportional = portable();
    prioritize(&mut proportional, &preferred_proportional(ALL_FACES));
    assert_eq!(
        text(&proportional),
        vec![
            "plotx-system-ui-regular",
            "phosphor",
            "plotx-system-cjk-regular",
            "Ubuntu-Light",
            "NotoEmoji-Regular",
            "emoji-icon-font",
        ]
    );
    let emphasized = emphasized_family(&emphasized_heads(ALL_FACES), &proportional);
    assert_eq!(
        text(&emphasized),
        vec![
            "plotx-system-ui-semibold",
            "phosphor",
            "plotx-system-cjk-semibold",
            "plotx-system-ui-regular",
            "plotx-system-cjk-regular",
            "Ubuntu-Light",
            "NotoEmoji-Regular",
            "emoji-icon-font",
        ]
    );
}

#[test]
fn the_regular_face_stands_in_for_a_missing_semibold() {
    let faces = PlatformFaces { ui_regular: true, ..NO_FACES };
    assert_eq!(text(&emphasized_heads(faces)), vec!["plotx-system-ui-regular", "phosphor"]);
    let faces = PlatformFaces { cjk_regular: true, ..NO_FACES };
    assert_eq!(text(&emphasized_heads(faces)), vec!["phosphor", "plotx-system-cjk-regular"]);
}

#[test]
fn without_system_faces_the_icon_font_leads_the_portable_fallbacks() {
    let mut proportional = portable();
    prioritize(&mut proportional, &preferred_proportional(NO_FACES));
    assert_eq!(
        text(&proportional),
        vec!["phosphor", "Ubuntu-Light", "NotoEmoji-Regular", "emoji-icon-font"]
    );
}

#[test]
fn a_cjk_face_comes_after_the_icon_font() {
    let faces = PlatformFaces { cjk_regular: true, ..NO_FACES };
    let mut proportional = portable();
    prioritize(&mut proportional, &preferred_proportional(faces));
    let names = text(&proportional);
    let icon = names.iter().position(|name| name == "phosphor").unwrap();
    let cjk = names.iter().position(|name| name == "plotx-system-cjk-regular").unwrap();
    assert!(icon < cjk);
}
