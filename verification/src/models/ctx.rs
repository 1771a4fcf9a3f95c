//! What all the views of a model share: the library, the notifications and
//! the table that orders types.

use crate::runtime::effects::Effects;
use crate::runtime::effects::EffectsView;
use crate::runtime::effects::EffectView;
use crate::runtime::msg::Internal;
use crate::runtime::msg::InternalView;
use crate::runtime::msg::Msg;
use crate::runtime::msg::MsgView;
use crate::runtime::update::Update;
use crate::text::texts_view;
use crate::types::library::LibraryBucket;
use crate::types::library::LibraryItemView;
use crate::types::library::with_item;
use crate::types::notifications::NotificationsBucket;
use crate::types::notifications::NotificationsEntryView;
use vstd::prelude::*;

verus! {

/// The state that every view reads and none of them changes.
#[derive(Debug)]
pub struct Ctx {
    pub library: LibraryBucket,
    pub notifications: NotificationsBucket,
    /// The table that orders types: a type that it lists stands at the place
    /// of its first entry, and before every type that it does not list. It
    /// decides only the order in which types are offered.
    pub type_priorities: Vec<String>,
}

/// What a `Ctx` holds, as plain values.
pub struct CtxView {
    pub library: Seq<LibraryItemView>,
    pub notifications: Seq<NotificationsEntryView>,
    pub type_priorities: Seq<Seq<char>>,
}

impl View for Ctx {
    type V = CtxView;

    open spec fn view(&self) -> CtxView {
        CtxView {
            library: self.library@,
            notifications: self.notifications@,
            type_priorities: texts_view(self.type_priorities@),
        }
    }
}

impl Ctx {
    /// A context with an empty library, without notifications, that orders
    /// types by `type_priorities`.
    pub fn new(type_priorities: Vec<String>) -> (ctx: Ctx)
        ensures
            ctx@ == (CtxView {
                library: Seq::empty(),
                notifications: Seq::empty(),
                type_priorities: texts_view(type_priorities@),
            }),
    {
        Ctx {
            library: LibraryBucket::new(),
            notifications: NotificationsBucket::new(),
            type_priorities,
        }
    }
}

impl CtxView {
    /// What `msg` makes of the context: an item that is to be put into the
    /// library is put there; every other message leaves the context as it is.
    pub open spec fn after(self, msg: MsgView) -> CtxView {
        match msg {
            MsgView::Internal(InternalView::UpdateLibraryItem(item)) => CtxView {
                library: with_item(self.library, item),
                notifications: self.notifications,
                type_priorities: self.type_priorities,
            },
            _ => self,
        }
    }

    /// What the context hands back for `msg`: where the library is no longer
    /// what it was, the model is to be told so next; otherwise nothing changed
    /// and nothing is left to do.
    pub open spec fn handed_back(self, msg: MsgView) -> EffectsView {
        if self.after(msg) == self {
            EffectsView::none().unchanged()
        } else {
            EffectsView {
                effects: seq![EffectView::Msg(MsgView::Internal(InternalView::LibraryChanged))],
                has_changed: true,
            }
        }
    }
}

impl Update for Ctx {
    open spec fn next(state: CtxView, msg: MsgView) -> CtxView {
        state.after(msg)
    }

    open spec fn emitted(state: CtxView, msg: MsgView) -> EffectsView {
        state.handed_back(msg)
    }

    fn update(&mut self, msg: &Msg) -> (effects: Effects) {
        match msg {
            Msg::Internal(Internal::UpdateLibraryItem(item)) => {
                if self.library.insert(item.clone()) {
                    Effects::msg(Msg::Internal(Internal::LibraryChanged))
                } else {
                    Effects::none().unchanged()
                }
            },
            _ => Effects::none().unchanged(),
        }
    }
}

} // verus!
