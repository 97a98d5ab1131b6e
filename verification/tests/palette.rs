use hyprpanopticon::palette::class_hue;

#[test]
fn class_hue_is_fnv1a_mod_360() {
    assert_eq!(class_hue(""), 61);
    assert_eq!(class_hue("a"), 340);
    assert_eq!(class_hue("firefox"), 242);
    assert_eq!(class_hue("kitty"), 104);
    assert_eq!(class_hue("Alacritty"), 212);
}

#[test]
fn class_hue_is_deterministic() {
    assert_eq!(class_hue("firefox"), class_hue("firefox"));
    assert!(class_hue("some-long-window-class") < 360);
}

