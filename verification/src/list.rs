use vstd::prelude::*;

use crate::buttons::Button;

verus! {

/// The selection after moving down a list: the first item when nothing is selected, else the
/// next index, staying at `usize::MAX`.
pub open spec fn next_selection(selected: Option<usize>) -> Option<usize> {
    match selected {
        None => Some(0),
        Some(i) => Some(if i == usize::MAX { usize::MAX } else { (i + 1) as usize }),
    }
}

/// The selection after moving up a list: `usize::MAX` (the last item, once the list is drawn)
/// when nothing is selected, else the previous index, staying at 0.
pub open spec fn previous_selection(selected: Option<usize>) -> Option<usize> {
    match selected {
        None => Some(usize::MAX),
        Some(i) => Some(if i == 0 { 0 } else { (i - 1) as usize }),
    }
}

/// Moves a list selection down; calls `ratatui::widgets::ListState::select_next`.
#[verifier::external_body]
pub(crate) fn select_next(selected: Option<usize>) -> (r: Option<usize>)
    ensures
        r == next_selection(selected),
{
    let mut state = ratatui::widgets::ListState::default().with_selected(selected);
    state.select_next();
    state.selected()
}

/// Moves a list selection up; calls `ratatui::widgets::ListState::select_previous`.
#[verifier::external_body]
pub(crate) fn select_previous(selected: Option<usize>) -> (r: Option<usize>)
    ensures
        r == previous_selection(selected),
{
    let mut state = ratatui::widgets::ListState::default().with_selected(selected);
    state.select_previous();
    state.selected()
}

/// Moving down and then up returns to the selected entry, unless the selection was already at
/// the largest index.
pub proof fn lemma_next_then_previous(i: usize)
    requires
        i < usize::MAX,
    ensures
        previous_selection(next_selection(Some(i))) == Some(i),
{
}

/// Moving up and then down returns to the selected entry, unless the selection was the first.
pub proof fn lemma_previous_then_next(i: usize)
    requires
        i > 0,
    ensures
        next_selection(previous_selection(Some(i))) == Some(i),
{
}

/// The label of the first entry of a device list.
pub open spec fn back_label() -> Seq<char> {
    seq!['B', 'a', 'c', 'k']
}

/// The entries of a device list: "Back", then the rows.
pub fn with_back_entry(rows: Vec<String>) -> (r: Vec<String>)
    ensures
        r@.len() == rows@.len() + 1,
        r@[0]@ == back_label(),
        forall|k: int| 0 <= k < rows@.len() ==> #[trigger] r@[k + 1] == rows@[k],
{
    let mut items: Vec<String> = Vec::new();
    let back = String::from_str("Back");
    proof {
        reveal_strlit("Back");
        assert(back@ =~= back_label());
    }
    items.push(back);
    let mut rows = rows;
    items.append(&mut rows);
    items
}

/// A list needs a scrollbar when it has more entries than the lines it is drawn on.
pub fn needs_scrollbar(items: usize, height: u16) -> (r: bool)
    ensures
        r == (items > height),
{
    items > height as usize
}

/// The selection after a key event: keys act when they come up, 2 moves up, 8 moves down.
pub open spec fn selection_after(selected: Option<usize>, key: Button, released: bool) -> Option<usize> {
    if released && key == Button::Btn2 {
        previous_selection(selected)
    } else if released && key == Button::Btn8 {
        next_selection(selected)
    } else {
        selected
    }
}

/// Releasing 8 selects the next entry (the first when nothing is selected), releasing 2 the
/// previous one (staying on the first; with nothing selected, the last once drawn); every other
/// key event leaves the selection alone.
pub proof fn lemma_selection_keys(selected: Option<usize>, key: Button, released: bool, i: usize)
    ensures
        !(released && (key == Button::Btn2 || key == Button::Btn8)) ==> selection_after(
            selected,
            key,
            released,
        ) == selected,
        released && key == Button::Btn8 && selected == Some(i) && i < usize::MAX ==> selection_after(
            selected,
            key,
            released,
        ) == Some((i + 1) as usize),
        released && key == Button::Btn8 && selected is None ==> selection_after(selected, key, released)
            == Some(0usize),
        released && key == Button::Btn2 && selected == Some(i) && i > 0 ==> selection_after(
            selected,
            key,
            released,
        ) == Some((i - 1) as usize),
        released && key == Button::Btn2 && selected == Some(0usize) ==> selection_after(
            selected,
            key,
            released,
        ) == Some(0usize),
        released && key == Button::Btn2 && selected is None ==> selection_after(selected, key, released)
            == Some(usize::MAX),
{
}

} // verus!
