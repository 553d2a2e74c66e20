//! Which day box of a month page is selected, as left clicks move it.
use vstd::prelude::*;

verus! {

/// What a left click on a day box does to the notes pane.
#[derive(Clone, Copy, PartialEq, Eq, Structural, Debug)]
pub enum DayClick {
    /// The clicked box was the selected one: nothing is selected any more
    /// and the notes pane is hidden.
    Deselected,
    /// The clicked box is now selected and its notes are shown.
    Selected,
}

/// A left click on day box `clicked` while `selected` is the selected box:
/// returns the box whose notes are to be saved first (the one selected
/// before, if any), the new selection and what the click did. Clicking the
/// selected box again deselects it; clicking any box selects it.
pub fn day_box_clicked(selected: Option<usize>, clicked: usize) -> (r: (
    Option<usize>,
    Option<usize>,
    DayClick,
))
    ensures
        r.0 == selected,
        selected == Some(clicked) ==> r.1 is None && r.2 == DayClick::Deselected,
        selected != Some(clicked) ==> r.1 == Some(clicked) && r.2 == DayClick::Selected,
{
    match selected {
        Some(last) => {
            if last == clicked {
                (Some(last), None, DayClick::Deselected)
            } else {
                (Some(last), Some(clicked), DayClick::Selected)
            }
        },
        None => (None, Some(clicked), DayClick::Selected),
    }
}

} // verus!
