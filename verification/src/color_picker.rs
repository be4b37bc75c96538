//! The colour picker's result: the picked colour as hex and `rgb()` texts,
//! the preview style sheet, and finding the colour in the portal's reply.
use vstd::prelude::*;
use crate::text::{append_chars, append_str, chars_of, decimal, decimal_chars, eq_str, string_of};
use crate::web::{hex_digit_upper, hex_upper_char};

verus! {

/// Two uppercase hexadecimal digits of a byte.
pub open spec fn hex_byte(b: u8) -> Seq<char> {
    seq![hex_digit_upper((b / 16) as nat), hex_digit_upper((b % 16) as nat)]
}

/// `#RRGGBB` with uppercase digits.
pub open spec fn hex_text(r: u8, g: u8, b: u8) -> Seq<char> {
    "#"@ + hex_byte(r) + hex_byte(g) + hex_byte(b)
}

/// `rgb(r, g, b)` in decimal.
pub open spec fn rgb_text(r: u8, g: u8, b: u8) -> Seq<char> {
    "rgb("@ + decimal(r as nat) + ", "@ + decimal(g as nat) + ", "@ + decimal(b as nat) + ")"@
}

fn push_hex_byte(v: &mut Vec<char>, b: u8)
    ensures
        final(v)@ == old(v)@ + hex_byte(b),
{
    let ghost start = v@;
    v.push(hex_upper_char(b / 16));
    v.push(hex_upper_char(b % 16));
    assert(v@ =~= start + hex_byte(b));
}

/// The colour as `#RRGGBB`.
pub fn hex_code(r: u8, g: u8, b: u8) -> (s: String)
    ensures
        s@ == hex_text(r, g, b),
{
    let mut v = chars_of("#");
    push_hex_byte(&mut v, r);
    push_hex_byte(&mut v, g);
    push_hex_byte(&mut v, b);
    string_of(v.as_slice())
}

/// The colour as `rgb(r, g, b)`.
pub fn rgb_code(r: u8, g: u8, b: u8) -> (s: String)
    ensures
        s@ == rgb_text(r, g, b),
{
    let mut v = chars_of("rgb(");
    append_chars(&mut v, &decimal_chars(r as u64));
    append_str(&mut v, ", ");
    append_chars(&mut v, &decimal_chars(g as u64));
    append_str(&mut v, ", ");
    append_chars(&mut v, &decimal_chars(b as u64));
    append_str(&mut v, ")");
    string_of(v.as_slice())
}

/// The result window's style sheet before and after the preview colour.
pub const PREVIEW_CSS_HEAD: &'static str = "
        .launcher-box {
            padding: 20px;
        }
        .color-preview-box {
            min-width: 90px;
            min-height: 90px;
            background-color: ";

pub const PREVIEW_CSS_TAIL: &'static str = ";
            border-radius: 20px;
            border: 1px solid rgba(255, 255, 255, 0.12);
        }
        .color-value-lbl {
            font-family: monospace;
            font-size: 15px;
            font-weight: 500;
            color: #ffffff;
        }
        button.flat-icon-btn {
            background-color: transparent;
            background-image: none;
            border-style: none;
            box-shadow: none;
            color: rgba(255, 255, 255, 0.6);
            padding: 6px;
            border-radius: 9999px;
            transition: all 120ms ease;
        }
        button.flat-icon-btn:hover {
            background-color: rgba(255, 255, 255, 0.08);
            background-image: none;
            color: #ffffff;
        }
        button.flat-icon-btn:active {
            background-color: rgba(255, 255, 255, 0.15);
            background-image: none;
        }
        button.copy-icon-btn {
            background-color: rgba(255, 255, 255, 0.04);
            background-image: none;
            border: 1px solid rgba(255, 255, 255, 0.08);
            box-shadow: none;
            color: rgba(255, 255, 255, 0.7);
            padding: 8px;
            border-radius: 10px;
            transition: all 120ms ease;
        }
        button.copy-icon-btn:hover {
            background-color: rgba(255, 255, 255, 0.08);
            background-image: none;
            border-color: rgba(255, 255, 255, 0.15);
            color: #ffffff;
        }
        button.copy-icon-btn:active {
            background-color: rgba(255, 255, 255, 0.15);
            background-image: none;
        }
        button.picker-action-btn {
            background-color: rgba(255, 255, 255, 0.06);
            background-image: none;
            border: 1px solid rgba(255, 255, 255, 0.08);
            border-radius: 12px;
            color: #ffffff;
            font-size: 13px;
            font-weight: 600;
            padding-top: 10px;
            padding-bottom: 10px;
            padding-left: 20px;
            padding-right: 20px;
            transition: all 120ms ease;
        }
        button.picker-action-btn:hover {
            background-color: rgba(255, 255, 255, 0.1);
            background-image: none;
            border-color: rgba(255, 255, 255, 0.15);
        }
        button.picker-action-btn:active {
            background-color: rgba(255, 255, 255, 0.15);
            background-image: none;
        }
    ";

/// The style sheet of the result window, with the preview in the picked colour.
pub open spec fn preview_css_text(r: u8, g: u8, b: u8) -> Seq<char> {
    PREVIEW_CSS_HEAD@ + rgb_text(r, g, b) + PREVIEW_CSS_TAIL@
}

/// The style sheet of the result window (see `preview_css_text`).
pub fn preview_css(r: u8, g: u8, b: u8) -> (s: String)
    ensures
        s@ == preview_css_text(r, g, b),
{
    let mut v = chars_of(PREVIEW_CSS_HEAD);
    append_str(&mut v, rgb_code(r, g, b).as_str());
    append_str(&mut v, PREVIEW_CSS_TAIL);
    string_of(v.as_slice())
}

/// Index of the first key `color`, when the request succeeded (response 0).
pub open spec fn picked_entry(response: u32, keys: Seq<Seq<char>>, from: int) -> Option<int>
    decreases keys.len() - from,
{
    if response != 0 || from < 0 || from >= keys.len() {
        None
    } else if keys[from] == "color"@ {
        Some(from)
    } else {
        picked_entry(response, keys, from + 1)
    }
}

/// Which entry of the portal's reply holds the picked colour: the first
/// with the key `color`, when the response code is 0 (success).
pub fn color_entry(response: u32, keys: &Vec<String>) -> (r: Option<usize>)
    ensures
        match r {
            Some(i) => picked_entry(response, keys@.map_values(|k: String| k@), 0) == Some(
                i as int,
            ),
            None => picked_entry(response, keys@.map_values(|k: String| k@), 0) is None,
        },
{
    let ghost kv = keys@.map_values(|k: String| k@);
    if response != 0 {
        return None;
    }
    let mut i: usize = 0;
    while i < keys.len()
        invariant
            i <= keys.len(),
            response == 0,
            kv == keys@.map_values(|k: String| k@),
            picked_entry(response, kv, 0) == picked_entry(response, kv, i as int),
        decreases keys.len() - i,
    {
        assert(kv[i as int] == keys@[i as int]@);
        if eq_str(&chars_of(keys[i].as_str()), "color") {
            return Some(i);
        }
        i = i + 1;
    }
    None
}

} // verus!
