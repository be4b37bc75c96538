//! The theme: default settings, colour conversion, and the style sheet that
//! the settings produce. Opacities arrive as the text of the configured
//! numbers, exactly as they are written into the style sheet.
use vstd::prelude::*;
use crate::text::{
    append_chars, append_str, chars_of, contains, decimal, decimal_chars, occurs_at, is_ascii_digit, is_ascii_hex,
    replace_all, replace_str, split_char, split_chars, starts_with, starts_with_str, string_of,
    sub_vec, trim, trim_chars,
};

verus! {

/// The accent colour of a new configuration.
pub fn default_accent_color() -> (r: String)
    ensures
        r@ == "#ffffff"@,
{
    String::from_str("#ffffff")
}

/// The background colour of a new configuration.
pub fn default_background_color() -> (r: String)
    ensures
        r@ == "rgb(22, 22, 22)"@,
{
    String::from_str("rgb(22, 22, 22)")
}

/// The corner radius of the launcher box, in pixels.
pub fn default_border_radius_box() -> (r: u32)
    ensures
        r == 24,
{
    24
}

/// The corner radius of the search field, in pixels.
pub fn default_border_radius_entry() -> (r: u32)
    ensures
        r == 14,
{
    14
}

/// The corner radius of a result row, in pixels.
pub fn default_border_radius_row() -> (r: u32)
    ensures
        r == 12,
{
    12
}

/// Whether the compositor is asked to blur the background.
pub fn default_blur() -> (r: bool)
    ensures
        r,
{
    true
}

/// The font family of a new configuration: the system default.
pub fn default_font_family() -> (r: Option<String>)
    ensures
        r is None,
{
    None
}

/// The text without its leading `#` characters.
pub open spec fn strip_hashes(s: Seq<char>) -> Seq<char>
    decreases s.len(),
{
    if s.len() > 0 && s[0] == '#' {
        strip_hashes(s.drop_first())
    } else {
        s
    }
}

/// Value of a hexadecimal digit.
pub open spec fn hex_value(c: char) -> nat {
    if is_ascii_digit(c) {
        (c as u32 - '0' as u32) as nat
    } else if 'a' <= c <= 'f' {
        (c as u32 - 'a' as u32 + 10) as nat
    } else {
        (c as u32 - 'A' as u32 + 10) as nat
    }
}

/// Three or six hexadecimal digits (then all ASCII, so as many bytes as characters).
pub open spec fn is_hex_color(h: Seq<char>) -> bool {
    (h.len() == 3 || h.len() == 6) && forall|i: int| 0 <= i < h.len() ==> is_ascii_hex(#[trigger] h[i])
}

/// The red, green and blue of a hex colour: each digit of a short form
/// stands for itself twice.
pub open spec fn hex_rgb(h: Seq<char>) -> (nat, nat, nat) {
    if h.len() == 3 {
        (hex_value(h[0]) * 17, hex_value(h[1]) * 17, hex_value(h[2]) * 17)
    } else {
        (
            hex_value(h[0]) * 16 + hex_value(h[1]),
            hex_value(h[2]) * 16 + hex_value(h[3]),
            hex_value(h[4]) * 16 + hex_value(h[5]),
        )
    }
}

pub open spec fn rgba_text(r: nat, g: nat, b: nat, alpha: Seq<char>) -> Seq<char> {
    "rgba("@ + decimal(r) + ", "@ + decimal(g) + ", "@ + decimal(b) + ", "@ + alpha + ")"@
}

/// A configured colour with the opacity `alpha`: `rgb(..)`/`rgba(..)` colours
/// are kept as they are, hex colours become `rgba(r, g, b, alpha)`, and
/// anything else (a colour name) is kept; all trimmed.
pub open spec fn color_rgba(color: Seq<char>, alpha: Seq<char>) -> Seq<char> {
    let t = trim(color);
    if starts_with(t, "rgb"@) || starts_with(t, "rgba"@) {
        t
    } else {
        let h = strip_hashes(t);
        if is_hex_color(h) {
            let c = hex_rgb(h);
            rgba_text(c.0, c.1, c.2, alpha)
        } else {
            t
        }
    }
}

fn hex_digit_value(c: char) -> (r: u32)
    requires
        is_ascii_hex(c),
    ensures
        r == hex_value(c),
        r < 16,
{
    if '0' <= c && c <= '9' {
        c as u32 - '0' as u32
    } else if 'a' <= c && c <= 'f' {
        c as u32 - 'a' as u32 + 10
    } else {
        c as u32 - 'A' as u32 + 10
    }
}

/// The colour `color` with the opacity whose text is `alpha` (see `color_rgba`).
pub fn color_to_rgba(color: &str, alpha: &str) -> (r: String)
    ensures
        r@ == color_rgba(color@, alpha@),
{
    let t = trim_chars(&chars_of(color));
    if starts_with_str(&t, "rgb") || starts_with_str(&t, "rgba") {
        return string_of(t.as_slice());
    }
    let mut k: usize = 0;
    assert(t@.skip(0) =~= t@);
    while k < t.len() && t[k] == '#'
        invariant
            k <= t.len(),
            strip_hashes(t@) == strip_hashes(t@.skip(k as int)),
        decreases t.len() - k,
    {
        assert(t@.skip(k as int).drop_first() =~= t@.skip(k + 1));
        k = k + 1;
    }
    let h = sub_vec(&t, k, t.len());
    assert(h@ =~= t@.skip(k as int));
    assert(strip_hashes(t@) == h@);
    if h.len() != 3 && h.len() != 6 {
        return string_of(t.as_slice());
    }
    let mut i: usize = 0;
    while i < h.len()
        invariant
            i <= h.len(),
            t@ == trim(color@),
            !(starts_with(t@, "rgb"@) || starts_with(t@, "rgba"@)),
            h@ == strip_hashes(t@),
            forall|j: int| 0 <= j < i ==> is_ascii_hex(#[trigger] h@[j]),
        decreases h.len() - i,
    {
        let c = h[i];
        if !(('0' <= c && c <= '9') || ('a' <= c && c <= 'f') || ('A' <= c && c <= 'F')) {
            assert(!is_ascii_hex(h@[i as int]));
            return string_of(t.as_slice());
        }
        i = i + 1;
    }
    let (r, g, b) = if h.len() == 3 {
        (hex_digit_value(h[0]) * 17, hex_digit_value(h[1]) * 17, hex_digit_value(h[2]) * 17)
    } else {
        (
            hex_digit_value(h[0]) * 16 + hex_digit_value(h[1]),
            hex_digit_value(h[2]) * 16 + hex_digit_value(h[3]),
            hex_digit_value(h[4]) * 16 + hex_digit_value(h[5]),
        )
    };
    let mut out = chars_of("rgba(");
    append_chars(&mut out, &decimal_chars(r as u64));
    append_str(&mut out, ", ");
    append_chars(&mut out, &decimal_chars(g as u64));
    append_str(&mut out, ", ");
    append_chars(&mut out, &decimal_chars(b as u64));
    append_str(&mut out, ", ");
    append_str(&mut out, alpha);
    append_str(&mut out, ")");
    string_of(out.as_slice())
}

/// The style sheet's background: an `rgb(..)`/`rgba(..)` colour keeps its
/// first three components with the configured opacity (with `rgba`, then
/// `rgb`, and the parentheses removed first); a colour with fewer components
/// gives the default background; other colours go through `color_rgba`.
pub open spec fn background_css(bg: Seq<char>, opacity: Seq<char>) -> Seq<char> {
    if starts_with(trim(bg), "rgb"@) {
        let clean = replace_all(
            replace_all(replace_all(replace_all(bg, "rgba"@, ""@), "rgb"@, ""@), "("@, ""@),
            ")"@,
            ""@,
        );
        let parts = split_char(clean, ',');
        if parts.len() >= 3 {
            "rgba("@ + trim(parts[0]) + ", "@ + trim(parts[1]) + ", "@ + trim(parts[2]) + ", "@
                + opacity + ")"@
        } else {
            "rgba(22, 22, 22, "@ + opacity + ")"@
        }
    } else {
        color_rgba(bg, opacity)
    }
}

/// The font rule of the window: the configured family with a sans-serif
/// fallback, or nothing.
pub open spec fn font_rule(font: Option<Seq<char>>) -> Seq<char> {
    match font {
        Some(f) => "font-family: \""@ + f + "\", sans-serif;"@,
        None => Seq::empty(),
    }
}

fn background_css_exec(bg: &str, opacity: &str) -> (r: Vec<char>)
    ensures
        r@ == background_css(bg@, opacity@),
{
    let t = trim_chars(&chars_of(bg));
    if starts_with_str(&t, "rgb") {
        let v = chars_of(bg);
        proof {
            reveal_strlit("rgb");
            reveal_strlit("rgba");
            reveal_strlit("(");
            reveal_strlit(")");
        }
        let c1 = replace_str(&v, "rgba", "");
        let c2 = replace_str(&c1, "rgb", "");
        let c3 = replace_str(&c2, "(", "");
        let clean = replace_str(&c3, ")", "");
        let parts = split_chars(&clean, ',');
        let ghost pv = parts@.map_values(|p: Vec<char>| p@);
        let mut out = chars_of("rgba(");
        if parts.len() >= 3 {
            assert(pv[0] == parts@[0]@ && pv[1] == parts@[1]@ && pv[2] == parts@[2]@);
            append_chars(&mut out, &trim_chars(&parts[0]));
            append_str(&mut out, ", ");
            append_chars(&mut out, &trim_chars(&parts[1]));
            append_str(&mut out, ", ");
            append_chars(&mut out, &trim_chars(&parts[2]));
            append_str(&mut out, ", ");
        } else {
            append_str(&mut out, "22, 22, 22, ");
        }
        append_str(&mut out, opacity);
        append_str(&mut out, ")");
        proof {
            reveal_strlit("rgba(");
            reveal_strlit("22, 22, 22, ");
            reveal_strlit("rgba(22, 22, 22, ");
        }
        out
    } else {
        chars_of(color_to_rgba(bg, opacity).as_str())
    }
}

fn font_rule_exec(font: &Option<String>) -> (r: Vec<char>)
    ensures
        r@ == font_rule(crate::plugin::opt_text(*font)),
{
    match font {
        Some(f) => {
            let mut r = chars_of("font-family: \"");
            append_str(&mut r, f.as_str());
            append_str(&mut r, "\", sans-serif;");
            r
        },
        None => Vec::new(),
    }
}

/// The settings that the style sheet is made from; the opacities are the
/// texts of the configured numbers.
pub struct ThemeStyle {
    pub accent_color: String,
    pub background_color: String,
    pub background_opacity: String,
    pub border_radius_box: u32,
    pub border_radius_entry: u32,
    pub border_radius_row: u32,
    pub shadow_opacity: String,
    pub font_family: Option<String>,
}

/// The mathematical content of a [`ThemeStyle`].
pub struct ThemeView {
    pub accent_color: Seq<char>,
    pub background_color: Seq<char>,
    pub background_opacity: Seq<char>,
    pub border_radius_box: u32,
    pub border_radius_entry: u32,
    pub border_radius_row: u32,
    pub shadow_opacity: Seq<char>,
    pub font_family: Option<Seq<char>>,
}

impl View for ThemeStyle {
    type V = ThemeView;

    open spec fn view(&self) -> ThemeView {
        ThemeView {
            accent_color: self.accent_color@,
            background_color: self.background_color@,
            background_opacity: self.background_opacity@,
            border_radius_box: self.border_radius_box,
            border_radius_entry: self.border_radius_entry,
            border_radius_row: self.border_radius_row,
            shadow_opacity: self.shadow_opacity@,
            font_family: crate::plugin::opt_text(self.font_family),
        }
    }
}

/// The fixed parts of the style sheet, in order; the settings go between them.
pub const CSS_WINDOW: &'static str = "
        window.launcher-window,
        window.launcher-window.background,
        window.launcher-window .background,
        window.launcher-window decoration,
        window.launcher-window .csd decoration,
        window.launcher-window .window-frame,
        window.launcher-window .solid-csd {
            background-color: rgba(0, 0, 0, 0);
            background-image: none;
            box-shadow: none;
            border-style: none;
            border-width: 0px;
            margin-top: 0px;
            margin-bottom: 0px;
            margin-left: 0px;
            margin-right: 0px;
            padding-top: 0px;
            padding-bottom: 0px;
            padding-left: 0px;
            padding-right: 0px;
            ";

pub const CSS_BOX_BACKGROUND: &'static str = "
        }

        .single-line-title {
            font-weight: 600;
            font-size: 16px;
        }

        .launcher-box {
            background-color: ";

pub const CSS_BOX_RADIUS: &'static str = ";
            border: 1px solid rgba(255, 255, 255, 0.08);
            border-radius: ";

pub const CSS_BOX_SHADOW: &'static str = "px;
            box-shadow: 0 12px 40px rgba(0, 0, 0, ";

pub const CSS_ENTRY_RADIUS: &'static str = ");
            padding-top: 12px;
            padding-bottom: 12px;
            padding-left: 12px;
            padding-right: 12px;
            margin-top: 30px;
            margin-bottom: 50px;
            margin-left: 40px;
            margin-right: 40px;
        }

        window.launcher-window entry.search-entry {
            background-color: rgba(255, 255, 255, 0.03);
            border: 1px solid rgba(255, 255, 255, 0.05);
            border-radius: ";

pub const CSS_ENTRY_CARET: &'static str = "px;
            color: #ffffff;
            font-size: 18px;
            padding-top: 10px;
            padding-bottom: 10px;
            padding-left: 16px;
            padding-right: 16px;
            caret-color: ";

pub const CSS_ENTRY_FOCUS_BORDER: &'static str = ";
            outline: none;
            outline-color: transparent;
            outline-style: none;
            outline-width: 0px;
            box-shadow: none;
            transition: all 200ms ease;
        }

        window.launcher-window entry.search-entry:focus,
        window.launcher-window entry.search-entry:focus-within {
            background-color: rgba(255, 255, 255, 0.05);
            border: 1px solid ";

pub const CSS_ROW_RADIUS: &'static str = ";
            box-shadow: none;
            outline: none;
            outline-color: transparent;
            outline-style: none;
            outline-width: 0px;
        }

        .results-scroll {
            margin-top: 10px;
        }

        .results-list {
            background-color: rgba(0, 0, 0, 0);
            padding-top: 4px;
            padding-bottom: 4px;
        }

        .results-list row {
            background-color: transparent;
            border-radius: ";

pub const CSS_ROW_SELECTED: &'static str = "px;
            margin-top: 2px;
            margin-bottom: 2px;
            margin-left: 0;
            margin-right: 0;
            padding-top: 8px;
            padding-bottom: 8px;
            padding-left: 12px;
            padding-right: 12px;
            color: #e0e0e0;
            transition: all 120ms cubic-bezier(0.25, 0.46, 0.45, 0.94);
        }

        .results-list row:selected {
            background-color: ";

pub const CSS_ROW_HOVER: &'static str = ";
            color: #ffffff;
        }

        .results-list row:hover {
            background-color: ";

pub const CSS_PICKER_BORDER: &'static str = ";
            color: #ffffff;
        }

        .result-title {
            font-weight: 600;
            font-size: 15px;
        }

        .result-description {
            color: #888888;
            font-size: 12px;
        }

        scrollbar, scrollbar.vertical, .results-scroll scrollbar {
            opacity: 0;
            min-width: 0px;
            min-height: 0px;
            margin-top: 0px;
            margin-bottom: 0px;
            margin-left: 0px;
            margin-right: 0px;
            padding-top: 0px;
            padding-bottom: 0px;
            padding-left: 0px;
            padding-right: 0px;
        }

        .picker-btn {
            background-color: rgba(255, 255, 255, 0.05);
            border: 1px solid ";

pub const CSS_PICKER_HOVER: &'static str = ";
            border-radius: 8px;
            color: #ffffff;
            font-size: 11px;
            padding-top: 4px;
            padding-bottom: 4px;
            padding-left: 10px;
            padding-right: 10px;
            transition: all 120ms ease;
        }

        .picker-btn:hover {
            background-color: ";

pub const CSS_PICKER_HOVER_BORDER: &'static str = ";
            border: 1px solid ";

pub const CSS_PICKER_ACTIVE: &'static str = ";
        }

        .picker-btn:active {
            background-color: ";

pub const CSS_END: &'static str = ";
        }
        ";

/// The launcher's style sheet for these settings: the fixed rules with the
/// font, the background, the radii, the shadow opacity and the accent colour
/// (at opacities 1, 0.5, 0.25, 0.12 and 0.06) filled in.
pub open spec fn theme_css(s: ThemeView) -> Seq<char> {
    CSS_WINDOW@ + font_rule(s.font_family) + theme_body(s)
}

/// The style sheet after the window rule's font: everything but the font.
pub open spec fn theme_body(s: ThemeView) -> Seq<char> {
    CSS_BOX_BACKGROUND@
        + background_css(s.background_color, s.background_opacity)
        + CSS_BOX_RADIUS@
        + decimal(s.border_radius_box as nat)
        + CSS_BOX_SHADOW@
        + s.shadow_opacity
        + CSS_ENTRY_RADIUS@
        + decimal(s.border_radius_entry as nat)
        + CSS_ENTRY_CARET@
        + color_rgba(s.accent_color, "1"@)
        + CSS_ENTRY_FOCUS_BORDER@
        + color_rgba(s.accent_color, "0.5"@)
        + CSS_ROW_RADIUS@
        + decimal(s.border_radius_row as nat)
        + CSS_ROW_SELECTED@
        + color_rgba(s.accent_color, "0.12"@)
        + CSS_ROW_HOVER@
        + color_rgba(s.accent_color, "0.06"@)
        + CSS_PICKER_BORDER@
        + color_rgba(s.accent_color, "0.25"@)
        + CSS_PICKER_HOVER@
        + color_rgba(s.accent_color, "0.06"@)
        + CSS_PICKER_HOVER_BORDER@
        + color_rgba(s.accent_color, "0.5"@)
        + CSS_PICKER_ACTIVE@
        + color_rgba(s.accent_color, "0.12"@)
        + CSS_END@
}

/// Without a font family the style sheet holds no font rule; with one, the
/// only difference is its rule, with the sans-serif fallback, at the end of
/// the window rule.
pub proof fn lemma_font_fallback(s: ThemeView, f: Seq<char>)
    ensures
        theme_css(ThemeView { font_family: None, ..s }) == CSS_WINDOW@ + theme_body(s),
        theme_css(ThemeView { font_family: Some(f), ..s }) == CSS_WINDOW@ + ("font-family: \""@
            + f + "\", sans-serif;"@) + theme_body(s),
        contains(
            theme_css(ThemeView { font_family: Some(f), ..s }),
            "font-family: \""@ + f + "\", sans-serif;"@,
        ),
{
    let rule = "font-family: \""@ + f + "\", sans-serif;"@;
    let with = ThemeView { font_family: Some(f), ..s };
    assert(theme_body(ThemeView { font_family: None, ..s }) == theme_body(s));
    assert(theme_body(with) == theme_body(s));
    assert(CSS_WINDOW@ + font_rule(None) =~= CSS_WINDOW@);
    let i = CSS_WINDOW@.len() as int;
    assert(theme_css(with).subrange(i, i + rule.len()) =~= rule);
    assert(occurs_at(theme_css(with), rule, i));
}

/// The style sheet for these settings (see `theme_css`).
pub fn generate_css(style: &ThemeStyle) -> (r: String)
    ensures
        r@ == theme_css(style@),
{
    let font = font_rule_exec(&style.font_family);
    let bg = background_css_exec(style.background_color.as_str(), style.background_opacity.as_str());
    let solid = chars_of(color_to_rgba(style.accent_color.as_str(), "1").as_str());
    let focus = chars_of(color_to_rgba(style.accent_color.as_str(), "0.5").as_str());
    let selected = chars_of(color_to_rgba(style.accent_color.as_str(), "0.12").as_str());
    let hover = chars_of(color_to_rgba(style.accent_color.as_str(), "0.06").as_str());
    let border = chars_of(color_to_rgba(style.accent_color.as_str(), "0.25").as_str());
    let mut body: Vec<char> = Vec::new();
    append_str(&mut body, CSS_BOX_BACKGROUND);
    append_chars(&mut body, &bg);
    append_str(&mut body, CSS_BOX_RADIUS);
    append_chars(&mut body, &decimal_chars(style.border_radius_box as u64));
    append_str(&mut body, CSS_BOX_SHADOW);
    append_chars(&mut body, &chars_of(style.shadow_opacity.as_str()));
    append_str(&mut body, CSS_ENTRY_RADIUS);
    append_chars(&mut body, &decimal_chars(style.border_radius_entry as u64));
    append_str(&mut body, CSS_ENTRY_CARET);
    append_chars(&mut body, &solid);
    append_str(&mut body, CSS_ENTRY_FOCUS_BORDER);
    append_chars(&mut body, &focus);
    append_str(&mut body, CSS_ROW_RADIUS);
    append_chars(&mut body, &decimal_chars(style.border_radius_row as u64));
    append_str(&mut body, CSS_ROW_SELECTED);
    append_chars(&mut body, &selected);
    append_str(&mut body, CSS_ROW_HOVER);
    append_chars(&mut body, &hover);
    append_str(&mut body, CSS_PICKER_BORDER);
    append_chars(&mut body, &border);
    append_str(&mut body, CSS_PICKER_HOVER);
    append_chars(&mut body, &hover);
    append_str(&mut body, CSS_PICKER_HOVER_BORDER);
    append_chars(&mut body, &focus);
    append_str(&mut body, CSS_PICKER_ACTIVE);
    append_chars(&mut body, &selected);
    append_str(&mut body, CSS_END);
    assert(body@ =~= theme_body(style@));
    let mut css: Vec<char> = Vec::new();
    append_str(&mut css, CSS_WINDOW);
    append_chars(&mut css, &font);
    append_chars(&mut css, &body);
    string_of(css.as_slice())
}

} // verus!
