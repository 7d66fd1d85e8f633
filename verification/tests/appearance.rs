use gpui_platform::{
    appearance_for_foreground, effective_dpi, is_color_light, use_immersive_dark_mode,
    windows_credentials_target_name, Color, WindowAppearance,
};

#[test]
fn light_and_dark_colors() {
    let white = Color { a: 255, r: 255, g: 255, b: 255 };
    let black = Color { a: 255, r: 0, g: 0, b: 0 };
    assert!(is_color_light(&white));
    assert!(!is_color_light(&black));
    // 5 * 128 + 2 * 128 + 128 = 1024 is not above 8 * 128.
    assert!(!is_color_light(&Color { a: 0, r: 128, g: 128, b: 128 }));
    assert!(is_color_light(&Color { a: 0, r: 128, g: 128, b: 129 }));
}

#[test]
fn light_foreground_means_dark_theme() {
    let white = Color { a: 255, r: 255, g: 255, b: 255 };
    let black = Color { a: 255, r: 0, g: 0, b: 0 };
    assert_eq!(appearance_for_foreground(&white), WindowAppearance::Dark);
    assert_eq!(appearance_for_foreground(&black), WindowAppearance::Light);
}

#[test]
fn dark_title_bar_for_dark_appearances() {
    assert!(use_immersive_dark_mode(WindowAppearance::Dark));
    assert!(use_immersive_dark_mode(WindowAppearance::VibrantDark));
    assert!(!use_immersive_dark_mode(WindowAppearance::Light));
    assert!(!use_immersive_dark_mode(WindowAppearance::VibrantLight));
}

#[test]
fn dpi_falls_back_to_default() {
    assert_eq!(effective_dpi(Some(144)), 144);
    assert_eq!(effective_dpi(Some(0)), 96);
    assert_eq!(effective_dpi(None), 96);
}

#[test]
fn credentials_target_name() {
    assert_eq!(windows_credentials_target_name("https://zed.dev"), "zed:url=https://zed.dev");
    assert_eq!(windows_credentials_target_name(""), "zed:url=");
}
