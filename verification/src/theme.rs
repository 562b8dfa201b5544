//! The colors of the user interface, and the user's choice between a dark and a
//! light one.
//!
//! Green is for what the user can act on, neutral surfaces are for the rest.
//! The choice is a file that holds `dark` or `light`; dark is the default.
use crate::notice::Tone;
use crate::paths;
use crate::paths::path_join;
use crate::text;
use crate::text::{chars_of, is_same_but_case, trimmed};
use vstd::prelude::*;
use vstd::string::*;

verus! {

/// Red, green and blue.
pub type Rgb = (u8, u8, u8);

// Brand
/// Brand green: the header and the primary button.
pub const PRIMARY_RICH: Rgb = (0x0F, 0x87, 0x23);

/// What is selected.
pub const PRIMARY: Rgb = (0x12, 0x9B, 0x2B);

/// Bright green, for text on dark surfaces.
pub const PRIMARY_STRONG: Rgb = (0x3D, 0xD1, 0x60);

// Dark surfaces
/// The page.
pub const SURFACE_BASE: Rgb = (0x15, 0x17, 0x1C);

/// Raised panels.
pub const SURFACE_WEAK: Rgb = (0x1D, 0x20, 0x27);

/// Lists and input fields.
pub const SURFACE_CONTAINER: Rgb = (0x23, 0x27, 0x30);

/// Borders.
pub const BORDER_SUBTLE: Rgb = (0x3A, 0x3F, 0x4B);

// Light surfaces
/// The page.
pub const SURFACE_BASE_LIGHT: Rgb = (0xF7, 0xF8, 0xFA);

/// Raised panels.
pub const SURFACE_WEAK_LIGHT: Rgb = (0xEB, 0xED, 0xF1);

/// Lists and input fields.
pub const SURFACE_CONTAINER_LIGHT: Rgb = (0xFF, 0xFF, 0xFF);

/// Borders.
pub const BORDER_SUBTLE_LIGHT: Rgb = (0xC9, 0xCE, 0xD6);

// Text
/// Copy on dark surfaces.
pub const TEXT_STRONG: Rgb = (0xF2, 0xF3, 0xF5);

/// Secondary text on dark surfaces.
pub const TEXT_EMPHASIS: Rgb = (0xA8, 0xB0, 0xBD);

/// Secondary text on light surfaces.
pub const TEXT_EMPHASIS_LIGHT: Rgb = (0x5A, 0x64, 0x72);

/// Text on green.
pub const TEXT_WHITE: Rgb = (0xFF, 0xFF, 0xFF);

// Status
pub const SUCCESS: Rgb = (0x2E, 0xA0, 0x43);

pub const DANGER: Rgb = (0xE5, 0x48, 0x4D);

pub const WARNING: Rgb = (0xD1, 0x86, 0x16);

pub const INFO: Rgb = (0x3B, 0x82, 0xF6);

/// The color of a message.
pub open spec fn tone_rgb(tone: Tone) -> Rgb {
    match tone {
        Tone::Success => SUCCESS,
        Tone::Danger => DANGER,
        Tone::Warning => WARNING,
        Tone::Info => INFO,
    }
}

/// The color of a message.
pub fn tone_color(tone: Tone) -> (res: Rgb)
    ensures
        res == tone_rgb(tone),
{
    match tone {
        Tone::Success => SUCCESS,
        Tone::Danger => DANGER,
        Tone::Warning => WARNING,
        Tone::Info => INFO,
    }
}

/// The color of the active mode.
pub open spec fn in_mode(dark_mode: bool, dark: Rgb, light: Rgb) -> Rgb {
    if dark_mode {
        dark
    } else {
        light
    }
}

/// The page.
pub fn surface_base(dark_mode: bool) -> (res: Rgb)
    ensures
        res == in_mode(dark_mode, SURFACE_BASE, SURFACE_BASE_LIGHT),
{
    if dark_mode {
        SURFACE_BASE
    } else {
        SURFACE_BASE_LIGHT
    }
}

/// Raised panels.
pub fn surface_weak(dark_mode: bool) -> (res: Rgb)
    ensures
        res == in_mode(dark_mode, SURFACE_WEAK, SURFACE_WEAK_LIGHT),
{
    if dark_mode {
        SURFACE_WEAK
    } else {
        SURFACE_WEAK_LIGHT
    }
}

/// Lists and input fields.
pub fn surface_container(dark_mode: bool) -> (res: Rgb)
    ensures
        res == in_mode(dark_mode, SURFACE_CONTAINER, SURFACE_CONTAINER_LIGHT),
{
    if dark_mode {
        SURFACE_CONTAINER
    } else {
        SURFACE_CONTAINER_LIGHT
    }
}

/// Borders.
pub fn border_subtle(dark_mode: bool) -> (res: Rgb)
    ensures
        res == in_mode(dark_mode, BORDER_SUBTLE, BORDER_SUBTLE_LIGHT),
{
    if dark_mode {
        BORDER_SUBTLE
    } else {
        BORDER_SUBTLE_LIGHT
    }
}

/// Secondary text.
pub fn text_emphasis(dark_mode: bool) -> (res: Rgb)
    ensures
        res == in_mode(dark_mode, TEXT_EMPHASIS, TEXT_EMPHASIS_LIGHT),
{
    if dark_mode {
        TEXT_EMPHASIS
    } else {
        TEXT_EMPHASIS_LIGHT
    }
}

// ---------------------------------------------------------------------- styles

/// The choice of the user.
#[derive(Debug, Clone, Copy, PartialEq, Eq, Structural)]
pub enum Theme {
    Dark,
    Light,
}

/// The colors of the widgets.
#[derive(Debug, Clone, Copy, PartialEq, Eq)]
pub struct WidgetColors {
    pub text: Rgb,
    pub inactive_fill: Rgb,
    pub hovered_fill: Rgb,
    pub hovered_border: Rgb,
}

/// The colors of a theme.
#[derive(Debug, Clone, Copy, PartialEq, Eq)]
pub struct Colors {
    pub panel_fill: Rgb,
    pub window_fill: Rgb,
    pub input_fill: Rgb,
    pub selection_fill: Rgb,
    pub selection_text: Rgb,
    pub hyperlink: Rgb,
    /// The widgets, as far as they differ from those of the toolkit.
    pub widgets: Option<WidgetColors>,
}

/// The colors of a theme.
pub open spec fn theme_colors(theme: Theme) -> Colors {
    match theme {
        Theme::Dark => Colors {
            panel_fill: SURFACE_BASE,
            window_fill: SURFACE_BASE,
            input_fill: SURFACE_CONTAINER,
            selection_fill: PRIMARY,
            selection_text: TEXT_WHITE,
            hyperlink: PRIMARY_STRONG,
            widgets: Some(
                WidgetColors {
                    text: TEXT_STRONG,
                    inactive_fill: SURFACE_WEAK,
                    hovered_fill: SURFACE_CONTAINER,
                    hovered_border: BORDER_SUBTLE,
                },
            ),
        },
        Theme::Light => Colors {
            panel_fill: SURFACE_BASE_LIGHT,
            window_fill: SURFACE_BASE_LIGHT,
            input_fill: SURFACE_CONTAINER_LIGHT,
            selection_fill: PRIMARY,
            selection_text: TEXT_WHITE,
            hyperlink: PRIMARY_RICH,
            widgets: None,
        },
    }
}

/// The colors to install for a theme.
pub fn apply(theme: Theme) -> (res: Colors)
    ensures
        res == theme_colors(theme),
{
    let dark = match theme {
        Theme::Dark => true,
        Theme::Light => false,
    };
    let base = surface_base(dark);
    Colors {
        panel_fill: base,
        window_fill: base,
        input_fill: surface_container(dark),
        selection_fill: PRIMARY,
        selection_text: TEXT_WHITE,
        hyperlink: if dark {
            PRIMARY_STRONG
        } else {
            PRIMARY_RICH
        },
        widgets: if dark {
            Some(
                WidgetColors {
                    text: TEXT_STRONG,
                    inactive_fill: SURFACE_WEAK,
                    hovered_fill: SURFACE_CONTAINER,
                    hovered_border: BORDER_SUBTLE,
                },
            )
        } else {
            None
        },
    }
}

/// The colors of the frame around a list: its surface and its border.
pub fn container_frame(dark_mode: bool) -> (res: (Rgb, Rgb))
    ensures
        dark_mode ==> res == (SURFACE_CONTAINER, BORDER_SUBTLE),
        !dark_mode ==> res == (SURFACE_CONTAINER_LIGHT, BORDER_SUBTLE_LIGHT),
{
    (surface_container(dark_mode), border_subtle(dark_mode))
}

/// The colors of the primary button: its text and its surface.
pub fn primary_button() -> (res: (Rgb, Rgb))
    ensures
        res == (TEXT_WHITE, PRIMARY_RICH),
{
    (TEXT_WHITE, PRIMARY_RICH)
}

// ------------------------------------------------------------------ preference

/// The file that holds the preference: in the configuration folder that the
/// user has set, else in the one below the user's home.
pub open spec fn preference_file(config: Option<Seq<u8>>, home: Option<Seq<u8>>) -> Option<
    Seq<u8>,
> {
    let base = if config is Some && config->0.len() > 0 {
        config
    } else if home is Some {
        Some(paths::join(home->0, paths::bytes(".config"@)))
    } else {
        None
    };
    match base {
        Some(folder) => Some(
            paths::join(
                paths::join(folder, paths::bytes("venus_rust_tools"@)),
                paths::bytes("theme"@),
            ),
        ),
        None => None,
    }
}

/// The bytes of an optional path.
pub open spec fn path_view(path: Option<Vec<u8>>) -> Option<Seq<u8>> {
    match path {
        Some(p) => Some(p@),
        None => None,
    }
}

/// The file that holds the preference, from the values of `XDG_CONFIG_HOME`
/// and `HOME`.
pub fn pref_path(config: Option<Vec<u8>>, home: Option<Vec<u8>>) -> (res: Option<Vec<u8>>)
    ensures
        path_view(res) == preference_file(path_view(config), path_view(home)),
{
    let base = match (config, home) {
        (Some(folder), home) => if folder.len() > 0 {
            folder
        } else {
            match home {
                Some(folder) => path_join(folder.as_slice(), ".config".as_bytes()),
                None => {
                    return None;
                },
            }
        },
        (None, Some(folder)) => path_join(folder.as_slice(), ".config".as_bytes()),
        (None, None) => {
            return None;
        },
    };
    let tools = path_join(base.as_slice(), "venus_rust_tools".as_bytes());
    Some(path_join(tools.as_slice(), "theme".as_bytes()))
}

/// What the preference file says.
pub open spec fn loaded(content: Option<Seq<char>>) -> Theme {
    match content {
        Some(s) => if text::same_but_case(text::trim(s), "light"@) {
            Theme::Light
        } else {
            Theme::Dark
        },
        None => Theme::Dark,
    }
}

/// The preference, from the content of its file, if it could be read.
pub fn load(content: Option<&str>) -> (res: Theme)
    ensures
        res == loaded(
            match content {
                Some(s) => Some(s@),
                None => None,
            },
        ),
{
    if let Some(s) = content {
        let chars = chars_of(s);
        let light = chars_of("light");
        if is_same_but_case(trimmed(chars.as_slice()), light.as_slice()) {
            return Theme::Light;
        }
    }
    Theme::Dark
}

/// What the preference file is to hold.
pub open spec fn saved(theme: Theme) -> Seq<char> {
    match theme {
        Theme::Light => "light\n"@,
        Theme::Dark => "dark\n"@,
    }
}

/// What to write into the preference file.
pub fn save(theme: Theme) -> (res: &'static str)
    ensures
        res@ == saved(theme),
{
    match theme {
        Theme::Light => "light\n",
        Theme::Dark => "dark\n",
    }
}

/// A button that switches the theme.
#[derive(Debug)]
pub struct Toggle {
    pub icon: String,
    pub tip: String,
    pub next: Theme,
}

/// The theme that follows.
pub open spec fn other(theme: Theme) -> Theme {
    match theme {
        Theme::Dark => Theme::Light,
        Theme::Light => Theme::Dark,
    }
}

/// The button that switches from `current`: a sun or a moon.
pub fn toggle_button(current: Theme) -> (res: Toggle)
    ensures
        res.next == other(current),
        current == Theme::Dark ==> res.icon@ == "\u{2600}"@ && res.tip@
            == "Switch to the light theme"@ + " (applies to all the VENUS rust tools)"@,
        current == Theme::Light ==> res.icon@ == "\u{1F319}"@ && res.tip@
            == "Switch to the dark theme"@ + " (applies to all the VENUS rust tools)"@,
{
    let (icon, tip, next) = match current {
        Theme::Dark => ("\u{2600}", "Switch to the light theme", Theme::Light),
        Theme::Light => ("\u{1F319}", "Switch to the dark theme", Theme::Dark),
    };
    Toggle {
        icon: icon.to_owned(),
        tip: tip.to_owned().concat(" (applies to all the VENUS rust tools)"),
        next,
    }
}

// ------------------------------------------------------------------------ laws

/// In either theme the page is what fills the panels.
pub proof fn page_fills_the_panels(theme: Theme)
    ensures
        theme_colors(theme).panel_fill == in_mode(
            theme == Theme::Dark,
            SURFACE_BASE,
            SURFACE_BASE_LIGHT,
        ),
        theme_colors(theme).window_fill == theme_colors(theme).panel_fill,
{
}

/// What was saved is what is loaded.
pub proof fn saved_theme_is_loaded(theme: Theme)
    ensures
        loaded(Some(saved(theme))) == theme,
{
    reveal_strlit("light\n");
    reveal_strlit("dark\n");
    reveal_strlit("light");
    let s = saved(theme);
    text::lemma_next_is(s, 0, text::Class::NonWhite, 0);
    assert(text::trim_start(s) =~= s);
    reveal_with_fuel(text::trim_end, 3);
    assert(text::trim(s) =~= s.drop_last());
    if theme == Theme::Light {
        assert(s.drop_last() =~= "light"@);
    }
}

/// Switching twice is back where it was.
pub proof fn switching_twice_changes_nothing(theme: Theme)
    ensures
        other(theme) != theme,
        other(other(theme)) == theme,
{
}

/// The theme is light exactly where the file says `light`, in whatever case and
/// with whatever white space around it. Without a file it is dark.
pub proof fn light_is_what_says_light(before: Seq<char>, word: Seq<char>, behind: Seq<char>)
    requires
        forall|i: int| 0 <= i < before.len() ==> text::white_space(#[trigger] before[i]),
        forall|i: int| 0 <= i < behind.len() ==> text::white_space(#[trigger] behind[i]),
        word.len() > 0 ==> !text::white_space(word[0]) && !text::white_space(word.last()),
    ensures
        loaded(Some(before + word + behind)) == Theme::Light <==> text::same_but_case(
            word,
            "light"@,
        ),
        loaded(None) == Theme::Dark,
{
    text::trimming_takes_off_white_space(before, word, behind);
}

/// The preference is the file `venus_rust_tools/theme` of the folder that the
/// user has set, and of `.config` in the home where none is set.
pub proof fn preference_is_in_the_configuration_folder(
    config: Seq<u8>,
    home: Option<Seq<u8>>,
    own: Seq<u8>,
)
    ensures
        config.len() > 0 ==> preference_file(Some(config), home) == Some(
            paths::join(
                paths::join(config, paths::bytes("venus_rust_tools"@)),
                paths::bytes("theme"@),
            ),
        ),
        preference_file(None, Some(own)) == Some(
            paths::join(
                paths::join(
                    paths::join(own, paths::bytes(".config"@)),
                    paths::bytes("venus_rust_tools"@),
                ),
                paths::bytes("theme"@),
            ),
        ),
        preference_file(Some(Seq::empty()), home) == preference_file(None, home),
        preference_file(None, None) is None,
{
}

/// Each theme has its own colors for the page, the lists and the links, and
/// both mark what is selected in green with white text. Only the dark one has
/// widgets of its own.
pub proof fn themes_have_their_colors(dark: Rgb, light: Rgb)
    ensures
        in_mode(true, dark, light) == dark,
        in_mode(false, dark, light) == light,
        theme_colors(Theme::Dark).input_fill == SURFACE_CONTAINER,
        theme_colors(Theme::Light).input_fill == SURFACE_CONTAINER_LIGHT,
        theme_colors(Theme::Dark).hyperlink == PRIMARY_STRONG,
        theme_colors(Theme::Light).hyperlink == PRIMARY_RICH,
        theme_colors(Theme::Dark).selection_fill == PRIMARY,
        theme_colors(Theme::Light).selection_fill == PRIMARY,
        theme_colors(Theme::Dark).selection_text == TEXT_WHITE,
        theme_colors(Theme::Light).selection_text == TEXT_WHITE,
        theme_colors(Theme::Light).widgets is None,
        theme_colors(Theme::Dark).widgets == Some(
            WidgetColors {
                text: TEXT_STRONG,
                inactive_fill: SURFACE_WEAK,
                hovered_fill: SURFACE_CONTAINER,
                hovered_border: BORDER_SUBTLE,
            },
        ),
        tone_rgb(Tone::Success) == SUCCESS,
        tone_rgb(Tone::Danger) == DANGER,
        tone_rgb(Tone::Warning) == WARNING,
        tone_rgb(Tone::Info) == INFO,
{
}

/// An optional path is its bytes.
pub proof fn path_views_hold_the_bytes(path: Option<Vec<u8>>)
    ensures
        path is None <==> path_view(path) is None,
        path matches Some(p) ==> path_view(path) == Some(p@),
{
}

} // verus!
