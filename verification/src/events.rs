//! The notifications an editing surface emits towards its containing pane,
//! and the policies deciding which of them activate, close, or retitle the
//! pane item holding the surface.

use vstd::prelude::*;

verus! {

/// A change notification from the editing surface.
#[derive(Clone, Copy, PartialEq, Eq, Structural, Debug)]
pub enum Event {
    Activate,
    Closed,
    Saved,
    Dirtied,
    TitleChanged,
    Edited,
    SelectionsChanged,
}

/// Whether the pane should activate the item on `event`: only an explicit
/// activation request does.
pub fn should_activate_item_on_event(event: &Event) -> (r: bool)
    ensures
        r == (event is Activate),
{
    matches!(event, Event::Activate)
}

/// Whether the pane should close the item on `event`: only the surface
/// reporting itself closed does.
pub fn should_close_item_on_event(event: &Event) -> (r: bool)
    ensures
        r == (event is Closed),
{
    matches!(event, Event::Closed)
}

/// Whether the pane should refresh the item's tab on `event`: whenever the
/// saved state, dirty state or title changed.
pub fn should_update_tab_on_event(event: &Event) -> (r: bool)
    ensures
        r == (event is Saved || event is Dirtied || event is TitleChanged),
{
    matches!(event, Event::Saved | Event::Dirtied | Event::TitleChanged)
}

} // verus!
