use imaging_portal::notice::Tone;
use imaging_portal::theme::{
    apply, border_subtle, container_frame, load, pref_path, primary_button, save, surface_base,
    surface_container, surface_weak, text_emphasis, toggle_button, tone_color, Theme,
};

#[test]
fn colors_of_the_modes() {
    assert_eq!(surface_base(true), (0x15, 0x17, 0x1C));
    assert_eq!(surface_base(false), (0xF7, 0xF8, 0xFA));
    assert_eq!(surface_weak(true), (0x1D, 0x20, 0x27));
    assert_eq!(surface_weak(false), (0xEB, 0xED, 0xF1));
    assert_eq!(surface_container(true), (0x23, 0x27, 0x30));
    assert_eq!(surface_container(false), (0xFF, 0xFF, 0xFF));
    assert_eq!(border_subtle(true), (0x3A, 0x3F, 0x4B));
    assert_eq!(border_subtle(false), (0xC9, 0xCE, 0xD6));
    assert_eq!(text_emphasis(true), (0xA8, 0xB0, 0xBD));
    assert_eq!(text_emphasis(false), (0x5A, 0x64, 0x72));
    assert_eq!(container_frame(true), (surface_container(true), border_subtle(true)));
    assert_eq!(container_frame(false), (surface_container(false), border_subtle(false)));
    assert_eq!(primary_button(), ((0xFF, 0xFF, 0xFF), (0x0F, 0x87, 0x23)));
}

#[test]
fn colors_of_the_tones() {
    assert_eq!(tone_color(Tone::Success), (0x2E, 0xA0, 0x43));
    assert_eq!(tone_color(Tone::Danger), (0xE5, 0x48, 0x4D));
    assert_eq!(tone_color(Tone::Warning), (0xD1, 0x86, 0x16));
    assert_eq!(tone_color(Tone::Info), (0x3B, 0x82, 0xF6));
}

#[test]
fn styles_of_the_themes() {
    let dark = apply(Theme::Dark);
    assert_eq!(dark.panel_fill, surface_base(true));
    assert_eq!(dark.window_fill, surface_base(true));
    assert_eq!(dark.input_fill, surface_container(true));
    assert_eq!(dark.selection_fill, (0x12, 0x9B, 0x2B));
    assert_eq!(dark.selection_text, (0xFF, 0xFF, 0xFF));
    assert_eq!(dark.hyperlink, (0x3D, 0xD1, 0x60));
    let widgets = dark.widgets.unwrap();
    assert_eq!(widgets.text, (0xF2, 0xF3, 0xF5));
    assert_eq!(widgets.inactive_fill, surface_weak(true));
    assert_eq!(widgets.hovered_fill, surface_container(true));
    assert_eq!(widgets.hovered_border, border_subtle(true));
    let light = apply(Theme::Light);
    assert_eq!(light.panel_fill, surface_base(false));
    assert_eq!(light.input_fill, surface_container(false));
    assert_eq!(light.hyperlink, (0x0F, 0x87, 0x23));
    assert!(light.widgets.is_none());
}

#[test]
fn preference_is_loaded() {
    assert_eq!(load(None), Theme::Dark);
    assert_eq!(load(Some("")), Theme::Dark);
    assert_eq!(load(Some("dark\n")), Theme::Dark);
    assert_eq!(load(Some("light")), Theme::Light);
    assert_eq!(load(Some("  LiGhT \n")), Theme::Light);
    assert_eq!(load(Some("lights")), Theme::Dark);
}

#[test]
fn saved_preference_is_loaded() {
    for theme in [Theme::Dark, Theme::Light] {
        assert_eq!(load(Some(save(theme))), theme);
    }
    assert_eq!(save(Theme::Light), "light\n");
    assert_eq!(save(Theme::Dark), "dark\n");
}

#[test]
fn preference_file() {
    let path = |config: Option<&str>, home: Option<&str>| {
        pref_path(config.map(|s| s.as_bytes().to_vec()), home.map(|s| s.as_bytes().to_vec()))
            .map(|p| String::from_utf8(p).unwrap())
    };
    let own = Some("/cfg/venus_rust_tools/theme".to_owned());
    let home = Some("/home/me/.config/venus_rust_tools/theme".to_owned());
    assert_eq!(path(Some("/cfg"), Some("/home/me")), own);
    assert_eq!(path(Some("/cfg"), None), own);
    assert_eq!(path(Some(""), Some("/home/me")), home);
    assert_eq!(path(None, Some("/home/me")), home);
    assert_eq!(path(Some(""), None), None);
    assert_eq!(path(None, None), None);
}

#[test]
fn toggling() {
    let sun = toggle_button(Theme::Dark);
    assert_eq!(sun.icon, "☀");
    assert_eq!(sun.tip, "Switch to the light theme (applies to all the VENUS rust tools)");
    assert_eq!(sun.next, Theme::Light);
    let moon = toggle_button(Theme::Light);
    assert_eq!(moon.icon, "🌙");
    assert_eq!(moon.tip, "Switch to the dark theme (applies to all the VENUS rust tools)");
    assert_eq!(moon.next, Theme::Dark);
    assert_eq!(toggle_button(sun.next).next, Theme::Dark);
}
