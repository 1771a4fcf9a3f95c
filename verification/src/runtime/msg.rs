//! The messages that a model is updated with.

use crate::models::library_with_filters::Selected;
use crate::models::library_with_filters::SelectedView;
use crate::types::library::LibraryItem;
use crate::types::library::LibraryItemView;
use vstd::prelude::*;

verus! {

/// What a load asks to be shown.
#[derive(Debug)]
pub enum ActionLoad {
    /// The library through a filter, with the request to show.
    LibraryWithFilters(Selected),
}

/// What the user or the host asks for.
#[derive(Debug)]
pub enum Action {
    /// Show something.
    Load(ActionLoad),
    /// Show nothing any more.
    Unload,
}

/// What the system itself reports, as the consequence of an earlier message.
#[derive(Debug)]
pub enum Internal {
    /// An item is to be put into the library.
    UpdateLibraryItem(LibraryItem),
    /// The library is no longer what it was.
    LibraryChanged,
}

/// A message: either an action or an internal event.
#[derive(Debug)]
pub enum Msg {
    Action(Action),
    Internal(Internal),
}

/// What an `ActionLoad` holds, as plain values.
pub enum ActionLoadView {
    LibraryWithFilters(SelectedView),
}

/// What an `Action` holds, as plain values.
pub enum ActionView {
    Load(ActionLoadView),
    Unload,
}

/// What an `Internal` holds, as plain values.
pub enum InternalView {
    UpdateLibraryItem(LibraryItemView),
    LibraryChanged,
}

/// What a `Msg` holds, as plain values.
pub enum MsgView {
    Action(ActionView),
    Internal(InternalView),
}

impl View for ActionLoad {
    type V = ActionLoadView;

    open spec fn view(&self) -> ActionLoadView {
        match self {
            ActionLoad::LibraryWithFilters(selected) => ActionLoadView::LibraryWithFilters(
                selected@,
            ),
        }
    }
}

impl View for Action {
    type V = ActionView;

    open spec fn view(&self) -> ActionView {
        match self {
            Action::Load(load) => ActionView::Load(load@),
            Action::Unload => ActionView::Unload,
        }
    }
}

impl View for Internal {
    type V = InternalView;

    open spec fn view(&self) -> InternalView {
        match self {
            Internal::UpdateLibraryItem(item) => InternalView::UpdateLibraryItem(item@),
            Internal::LibraryChanged => InternalView::LibraryChanged,
        }
    }
}

impl View for Msg {
    type V = MsgView;

    open spec fn view(&self) -> MsgView {
        match self {
            Msg::Action(action) => MsgView::Action(action@),
            Msg::Internal(internal) => MsgView::Internal(internal@),
        }
    }
}

} // verus!
