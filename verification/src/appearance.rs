use vstd::prelude::*;
use vstd::string::StringExecFns;

verus! {

/// The dots per inch of a display at 100% scale.
pub const USER_DEFAULT_SCREEN_DPI: u32 = 96;

/// The light or dark look of the system or of a window.
#[derive(Clone, Copy, PartialEq, Eq, Debug, Hash, Structural)]
pub enum WindowAppearance {
    Light,
    VibrantLight,
    Dark,
    VibrantDark,
}

/// A color with 8-bit alpha, red, green and blue channels.
#[derive(Clone, Copy, PartialEq, Eq, Debug, Hash, Structural)]
pub struct Color {
    pub a: u8,
    pub r: u8,
    pub g: u8,
    pub b: u8,
}

/// A weighted brightness of the color: green counts five times, red twice, blue once.
pub open spec fn brightness(color: Color) -> int {
    5 * color.g + 2 * color.r + color.b
}

/// The brightness weighs green five times, red twice and blue once, so pure green is light
/// and pure red and pure blue are not, whatever their alpha.
pub proof fn lemma_brightness_weights(color: Color)
    ensures
        brightness(color) == 5 * color.g + 2 * color.r + color.b,
        color.r == 0 && color.b == 0 && color.g == 255 ==> brightness(color) > 1024,
        color.g == 0 && color.b == 0 ==> brightness(color) <= 1024,
        color.g == 0 && color.r == 0 ==> brightness(color) <= 1024,
{
}

/// Whether a color is light: its weighted brightness exceeds half of the scale (8 × 128).
pub fn is_color_light(color: &Color) -> (r: bool)
    ensures
        r == (brightness(*color) > 8 * 128),
        r == (5 * color.g + 2 * color.r + color.b > 1024),
{
    ((5 * color.g as u32) + (2 * color.r as u32) + color.b as u32) > (8 * 128)
}

/// The system's appearance, read from its foreground text color: light text means a dark theme.
pub fn appearance_for_foreground(foreground: &Color) -> (r: WindowAppearance)
    ensures
        r == (if brightness(*foreground) > 8 * 128 {
            WindowAppearance::Dark
        } else {
            WindowAppearance::Light
        }),
        r == (if 5 * foreground.g + 2 * foreground.r + foreground.b > 1024 {
            WindowAppearance::Dark
        } else {
            WindowAppearance::Light
        }),
{
    if is_color_light(foreground) {
        WindowAppearance::Dark
    } else {
        WindowAppearance::Light
    }
}

/// Whether a window of this appearance gets the dark title bar.
pub fn use_immersive_dark_mode(appearance: WindowAppearance) -> (r: bool)
    ensures
        r == (appearance == WindowAppearance::Dark || appearance == WindowAppearance::VibrantDark),
{
    match appearance {
        WindowAppearance::Dark | WindowAppearance::VibrantDark => true,
        WindowAppearance::Light | WindowAppearance::VibrantLight => false,
    }
}

/// The DPI of the display under the pointer: the reported horizontal DPI when the query
/// succeeded with a positive value, else the default (scale 1).
pub fn effective_dpi(reported: Option<u32>) -> (r: u32)
    ensures
        r == (match reported {
            Some(dpi) if dpi > 0 => dpi,
            _ => USER_DEFAULT_SCREEN_DPI,
        }),
{
    match reported {
        Some(dpi) if dpi > 0 => dpi,
        _ => USER_DEFAULT_SCREEN_DPI,
    }
}

/// The name under which the credentials of `url` are kept: `zed:url=` followed by the url.
pub fn windows_credentials_target_name(url: &str) -> (r: String)
    ensures
        r@ == "zed:url="@ + url@,
{
    let mut name = String::from_str("zed:url=");
    name.append(url);
    name
}

} // verus!
