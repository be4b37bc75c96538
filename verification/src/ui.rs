//! Decisions of the launcher window: what activating a result starts, how
//! the selection moves, and which clicks close the window.
use vstd::prelude::*;
use crate::text::{chars_of, eq_str, starts_with, starts_with_str};

verus! {

/// What activating a result starts.
pub enum Activation {
    /// Hide the launcher and start the colour picker.
    PickColor,
    /// Hide the launcher and let the translator show its own window.
    Translate,
    /// Execute the result through the router and act on its answer.
    Execute,
}

pub open spec fn activation_of(result_id: Seq<char>) -> Activation {
    if result_id == "sys:picker"@ {
        Activation::PickColor
    } else if starts_with(result_id, "tr:"@) {
        Activation::Translate
    } else {
        Activation::Execute
    }
}

/// What activating the result `result_id` starts.
pub fn activation(result_id: &str) -> (a: Activation)
    ensures
        a == activation_of(result_id@),
{
    let id = chars_of(result_id);
    if eq_str(&id, "sys:picker") {
        Activation::PickColor
    } else if starts_with_str(&id, "tr:") {
        Activation::Translate
    } else {
        Activation::Execute
    }
}

/// The row selected after pressing Down among `count` rows: the one after the
/// selection (the first when nothing is selected); `None` (no change) past the end.
pub fn row_below(selected: Option<usize>, count: usize) -> (r: Option<usize>)
    ensures
        r == (match selected {
            Some(i) => if i + 1 < count {
                Some((i + 1) as usize)
            } else {
                None
            },
            None => if count > 0 {
                Some(0usize)
            } else {
                None
            },
        }),
{
    match selected {
        Some(i) => if i < count && i + 1 < count {
            Some(i + 1)
        } else {
            None
        },
        None => if count > 0 {
            Some(0)
        } else {
            None
        },
    }
}

/// The row selected after pressing Up: the one before the selection; `None`
/// (no change) at the top or without a selection.
pub fn row_above(selected: Option<usize>) -> (r: Option<usize>)
    ensures
        r == (match selected {
            Some(i) => if i >= 1 {
                Some((i - 1) as usize)
            } else {
                None
            },
            None => None,
        }),
{
    match selected {
        Some(i) => if i >= 1 {
            Some(i - 1)
        } else {
            None
        },
        None => None,
    }
}

/// A click at `(x, y)` falls outside the box at `(bx, by)` of the given size
/// (its edges count as inside).
pub fn outside_box(x: i32, y: i32, bx: i32, by: i32, width: i32, height: i32) -> (r: bool)
    ensures
        r == (x < bx || x > bx + width || y < by || y > by + height),
{
    let (x, y, bx, by, w, h) = (x as i64, y as i64, bx as i64, by as i64, width as i64, height as i64);
    x < bx || x > bx + w || y < by || y > by + h
}

} // verus!
