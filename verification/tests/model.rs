use stremio_core::models::ctx::Ctx;
use stremio_core::models::library_with_filters::{
    ContinueWatchingFilter, LibraryRequest, LibraryRequestPage, LibraryWithFilters,
    NotRemovedFilter, Selected, Sort,
};
use stremio_core::runtime::effects::Effect;
use stremio_core::runtime::msg::{Action, ActionLoad, Internal, Msg};
use stremio_core::runtime::update::{Model, Update, UpdateWithCtx};
use stremio_core::types::library::{LibraryItem, LibraryItemState};

type Views = (
    LibraryWithFilters<NotRemovedFilter>,
    LibraryWithFilters<ContinueWatchingFilter>,
);

fn item(id: &str, time_offset: u64) -> LibraryItem {
    LibraryItem {
        id: id.to_string(),
        type_: "movie".to_string(),
        name: id.to_string(),
        removed: false,
        state: LibraryItemState {
            last_watched: None,
            time_offset,
            times_watched: 0,
        },
    }
}

fn model() -> Model<Views> {
    let ctx = Ctx::new(vec!["movie".to_string()]);
    let library =
        LibraryWithFilters::new(&ctx.library, &ctx.notifications, &ctx.type_priorities).0;
    let continue_watching =
        LibraryWithFilters::new(&ctx.library, &ctx.notifications, &ctx.type_priorities).0;
    Model {
        ctx,
        models: (library, continue_watching),
    }
}

fn load() -> Msg {
    Msg::Action(Action::Load(ActionLoad::LibraryWithFilters(Selected {
        request: LibraryRequest {
            type_: None,
            sort: Sort::Name,
            page: LibraryRequestPage::default(),
        },
    })))
}

#[test]
fn ctx_puts_an_item_into_the_library_and_asks_to_tell_the_model() {
    let mut ctx = Ctx::new(vec![]);
    let effects = ctx.update(&Msg::Internal(Internal::UpdateLibraryItem(item("a", 0))));
    assert!(effects.has_changed);
    assert_eq!(effects.len(), 1);
    assert!(matches!(
        effects.effects[0],
        Effect::Msg(Msg::Internal(Internal::LibraryChanged))
    ));
    assert_eq!(ctx.library.get(&"a".to_string()), Some(&item("a", 0)));
    let again = ctx.update(&Msg::Internal(Internal::UpdateLibraryItem(item("a", 0))));
    assert!(!again.has_changed);
    assert!(again.is_empty());
    assert_eq!(ctx.library.len(), 1);
}

#[test]
fn ctx_leaves_other_messages_alone() {
    let mut ctx = Ctx::new(vec![]);
    ctx.library.insert(item("a", 0));
    for msg in [
        load(),
        Msg::Action(Action::Unload),
        Msg::Internal(Internal::LibraryChanged),
    ] {
        let effects = ctx.update(&msg);
        assert!(!effects.has_changed);
        assert!(effects.is_empty());
        assert_eq!(ctx.library.len(), 1);
    }
}

#[test]
fn model_updates_the_context_before_its_views() {
    let mut model = model();
    model.update(&load());
    assert!(model.models.0.catalog.is_empty());
    model.update(&Msg::Internal(Internal::UpdateLibraryItem(item("a", 0))));
    let effects = model.update(&Msg::Internal(Internal::LibraryChanged));
    assert!(effects.has_changed);
    assert_eq!(model.models.0.catalog, vec![item("a", 0)]);
    assert!(model.models.1.catalog.is_empty());
}

#[test]
fn model_joins_what_its_parts_hand_back_in_their_order() {
    let mut model = model();
    let effects = model.update(&load());
    assert!(effects.has_changed);
    assert!(effects.is_empty());
    let effects = model.update(&Msg::Internal(Internal::UpdateLibraryItem(item("a", 5))));
    assert!(effects.has_changed);
    assert_eq!(effects.len(), 1);
    assert!(matches!(
        effects.effects[0],
        Effect::Msg(Msg::Internal(Internal::LibraryChanged))
    ));
    assert!(model.models.0.catalog.is_empty());
    for effect in effects.effects {
        if let Effect::Msg(msg) = effect {
            let effects = model.update(&msg);
            assert!(effects.has_changed);
            assert!(effects.is_empty());
        }
    }
    assert_eq!(model.models.0.catalog, vec![item("a", 5)]);
    assert_eq!(model.models.1.catalog, vec![item("a", 5)]);
    let effects = model.update(&Msg::Internal(Internal::LibraryChanged));
    assert!(!effects.has_changed);
}

#[test]
fn a_pair_of_views_takes_a_message_one_after_the_other() {
    let mut ctx = Ctx::new(vec![]);
    ctx.library.insert(item("a", 0));
    ctx.library.insert(item("b", 3));
    let mut views: Views = (
        LibraryWithFilters::new(&ctx.library, &ctx.notifications, &ctx.type_priorities).0,
        LibraryWithFilters::new(&ctx.library, &ctx.notifications, &ctx.type_priorities).0,
    );
    let effects = views.update(&load(), &ctx);
    assert!(effects.has_changed);
    assert_eq!(views.0.catalog.len(), 2);
    assert_eq!(views.1.catalog, vec![item("b", 3)]);
    let effects = views.update(&load(), &ctx);
    assert!(!effects.has_changed);
}
