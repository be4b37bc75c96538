use launcher::color_picker::{color_entry, hex_code, preview_css, rgb_code};
use launcher::config::{
    color_to_rgba, default_accent_color, default_background_color, default_blur,
    default_border_radius_box, default_border_radius_entry, default_border_radius_row,
    default_font_family, generate_css, ThemeStyle,
};
use launcher::ui::{activation, outside_box, row_above, row_below, Activation};

fn style(accent: &str, background: &str, font: Option<&str>) -> ThemeStyle {
    ThemeStyle {
        accent_color: accent.to_string(),
        background_color: background.to_string(),
        background_opacity: 0.9f32.to_string(),
        border_radius_box: default_border_radius_box(),
        border_radius_entry: default_border_radius_entry(),
        border_radius_row: default_border_radius_row(),
        shadow_opacity: 0.6f32.to_string(),
        font_family: font.map(|f| f.to_string()),
    }
}

#[test]
fn test_default_config() {
    assert_eq!(default_accent_color(), "#ffffff");
    assert_eq!(default_border_radius_box(), 24);
    assert_eq!(default_blur(), true);
}

#[test]
fn default_theme_values() {
    assert_eq!(default_background_color(), "rgb(22, 22, 22)");
    assert_eq!(default_border_radius_entry(), 14);
    assert_eq!(default_border_radius_row(), 12);
    assert_eq!(default_font_family(), None);
}

#[test]
fn test_color_to_rgba() {
    assert_eq!(color_to_rgba("#3b82f6", &0.5f32.to_string()), "rgba(59, 130, 246, 0.5)");
    assert_eq!(color_to_rgba("3b82f6", &1.0f32.to_string()), "rgba(59, 130, 246, 1)");
    assert_eq!(color_to_rgba("#fff", &0.1f32.to_string()), "rgba(255, 255, 255, 0.1)");
    assert_eq!(color_to_rgba("rgb(1, 2, 3)", &0.8f32.to_string()), "rgb(1, 2, 3)");
    assert_eq!(color_to_rgba("rgba(1, 2, 3, 0.4)", &0.8f32.to_string()), "rgba(1, 2, 3, 0.4)");
    assert_eq!(color_to_rgba("red", &0.5f32.to_string()), "red");
}

#[test]
fn color_to_rgba_edge_cases() {
    assert_eq!(color_to_rgba("  ##A0b ", "0.3"), "rgba(170, 0, 187, 0.3)");
    assert_eq!(color_to_rgba("#12345", "1"), "#12345");
    assert_eq!(color_to_rgba("#ggg", "1"), "#ggg");
}

#[test]
fn style_sheet_fills_in_the_settings() {
    let css = generate_css(&style("#3b82f6", "rgb(10, 20, 30)", Some("Outfit")));
    assert!(css.contains("font-family: \"Outfit\", sans-serif;"));
    assert!(css.contains("background-color: rgba(10, 20, 30, 0.9);"));
    assert!(css.contains("border-radius: 24px;"));
    assert!(css.contains("box-shadow: 0 12px 40px rgba(0, 0, 0, 0.6);"));
    assert!(css.contains("caret-color: rgba(59, 130, 246, 1);"));
    assert!(css.contains("border: 1px solid rgba(59, 130, 246, 0.5);"));
    assert!(css.contains("background-color: rgba(59, 130, 246, 0.12);"));
    assert!(css.contains("background-color: rgba(59, 130, 246, 0.06);"));
    assert!(css.contains("border: 1px solid rgba(59, 130, 246, 0.25);"));
    assert!(css.starts_with("\n        window.launcher-window,"));
}

#[test]
fn style_sheet_backgrounds() {
    let hex = generate_css(&style("#fff", "#000000", None));
    assert!(hex.contains("background-color: rgba(0, 0, 0, 0.9);"));
    assert!(!hex.contains("font-family"));
    let short = generate_css(&style("#fff", "rgb(1, 2)", None));
    assert!(short.contains("background-color: rgba(22, 22, 22, 0.9);"));
    let with_alpha = generate_css(&style("#fff", "rgba(1, 2, 3, 0.4)", None));
    assert!(with_alpha.contains("background-color: rgba(1, 2, 3, 0.9);"));
    let rgba = generate_css(&style("#fff", "rgba(10, 20, 30, 0.5)", None));
    assert!(rgba.contains("background-color: rgba(10, 20, 30, 0.9);"));
}

#[test]
fn picked_colour_texts() {
    assert_eq!(hex_code(255, 10, 0), "#FF0A00");
    assert_eq!(rgb_code(255, 10, 0), "rgb(255, 10, 0)");
    assert!(preview_css(1, 2, 3).contains("background-color: rgb(1, 2, 3);"));
    let keys = vec!["shape".to_string(), "color".to_string(), "color".to_string()];
    assert_eq!(color_entry(0, &keys), Some(1));
    assert_eq!(color_entry(1, &keys), None);
    assert_eq!(color_entry(0, &vec!["shape".to_string()]), None);
}

#[test]
fn activation_and_navigation() {
    assert!(matches!(activation("sys:picker"), Activation::PickColor));
    assert!(matches!(activation("tr:en:hallo"), Activation::Translate));
    assert!(matches!(activation("app:x"), Activation::Execute));
    assert_eq!(row_below(None, 3), Some(0));
    assert_eq!(row_below(Some(1), 3), Some(2));
    assert_eq!(row_below(Some(2), 3), None);
    assert_eq!(row_below(None, 0), None);
    assert_eq!(row_above(Some(2)), Some(1));
    assert_eq!(row_above(Some(0)), None);
    assert_eq!(row_above(None), None);
    assert!(!outside_box(10, 10, 0, 0, 10, 10));
    assert!(outside_box(11, 5, 0, 0, 10, 10));
    assert!(outside_box(5, -1, 0, 0, 10, 10));
}
