use stremio_core::constants::CATALOG_PAGE_SIZE;
use stremio_core::models::ctx::Ctx;
use stremio_core::models::library_with_filters::{
    catalog_update, compare_items, selectable_update, ContinueWatchingFilter, LibraryFilter,
    LibraryRequest, LibraryRequestPage, LibraryWithFilters, NotRemovedFilter, Selectable,
    SelectablePage, SelectableSort, SelectableType, Selected, Sort,
};
use stremio_core::runtime::msg::{Action, ActionLoad, Internal, Msg};
use stremio_core::runtime::update::UpdateWithCtx;
use stremio_core::types::library::{LibraryItem, LibraryItemState};
use stremio_core::types::notifications::NotificationsBucket;
use std::cmp::Ordering;

fn item(id: &str, type_: &str, name: &str) -> LibraryItem {
    LibraryItem {
        id: id.to_string(),
        type_: type_.to_string(),
        name: name.to_string(),
        removed: false,
        state: LibraryItemState {
            last_watched: None,
            time_offset: 0,
            times_watched: 0,
        },
    }
}

fn watched(id: &str, times_watched: u32) -> LibraryItem {
    let mut item = item(id, "movie", id);
    item.state.times_watched = times_watched;
    item
}

fn ctx_with(items: Vec<LibraryItem>) -> Ctx {
    let mut ctx = Ctx::new(vec![
        "movie".to_string(),
        "series".to_string(),
        "channel".to_string(),
    ]);
    for item in items {
        ctx.library.insert(item);
    }
    ctx
}

fn request(type_: Option<&str>, sort: Sort, page: usize) -> LibraryRequest {
    LibraryRequest {
        type_: type_.map(|tag| tag.to_string()),
        sort,
        page: LibraryRequestPage::new(page).unwrap(),
    }
}

fn load(type_: Option<&str>, sort: Sort, page: usize) -> Msg {
    Msg::Action(Action::Load(ActionLoad::LibraryWithFilters(Selected {
        request: request(type_, sort, page),
    })))
}

fn new_view<F: LibraryFilter>(ctx: &Ctx) -> LibraryWithFilters<F> {
    LibraryWithFilters::<F>::new(&ctx.library, &ctx.notifications, &ctx.type_priorities).0
}

fn ids(items: &[LibraryItem]) -> Vec<&str> {
    items.iter().map(|item| item.id.as_str()).collect()
}

fn offered(selectable: &Selectable) -> Vec<Option<&str>> {
    selectable
        .types
        .iter()
        .map(|entry| entry.type_.as_deref())
        .collect()
}

fn many(count: usize) -> Vec<LibraryItem> {
    (0..count)
        .map(|n| {
            let mut item = item(&format!("id{:04}", n), "movie", "name");
            item.state.times_watched = n as u32;
            item
        })
        .collect()
}

#[test]
fn new_view_has_nothing_selected() {
    let ctx = ctx_with(vec![item("a", "movie", "A"), item("b", "series", "B")]);
    let (view, effects) = LibraryWithFilters::<NotRemovedFilter>::new(
        &ctx.library,
        &ctx.notifications,
        &ctx.type_priorities,
    );
    assert!(!effects.has_changed);
    assert!(effects.is_empty());
    assert_eq!(view.selected, None);
    assert!(view.catalog.is_empty());
    assert_eq!(view.selectable.prev_page, None);
    assert_eq!(view.selectable.next_page, None);
    assert_eq!(
        view.selectable.types,
        vec![
            SelectableType {
                type_: None,
                selected: false,
                request: request(None, Sort::LastWatched, 1),
            },
            SelectableType {
                type_: Some("series".to_string()),
                selected: false,
                request: request(Some("series"), Sort::LastWatched, 1),
            },
            SelectableType {
                type_: Some("movie".to_string()),
                selected: false,
                request: request(Some("movie"), Sort::LastWatched, 1),
            },
        ]
    );
    assert_eq!(
        view.selectable.sorts,
        vec![
            SelectableSort {
                sort: Sort::LastWatched,
                selected: false,
                request: request(None, Sort::LastWatched, 1),
            },
            SelectableSort {
                sort: Sort::Name,
                selected: false,
                request: request(None, Sort::Name, 1),
            },
            SelectableSort {
                sort: Sort::Watched,
                selected: false,
                request: request(None, Sort::Watched, 1),
            },
            SelectableSort {
                sort: Sort::NotWatched,
                selected: false,
                request: request(None, Sort::NotWatched, 1),
            },
        ]
    );
}

#[test]
fn new_view_of_an_empty_library_offers_all_types_only() {
    let ctx = ctx_with(vec![]);
    let view = new_view::<NotRemovedFilter>(&ctx);
    assert_eq!(offered(&view.selectable), vec![None]);
    assert_eq!(view.selectable.sorts.len(), 4);
    assert!(view.catalog.is_empty());
}

#[test]
fn types_are_offered_once_each_in_reversed_priority() {
    let ctx = ctx_with(vec![
        item("1", "movie", "A"),
        item("2", "zebra", "B"),
        item("3", "series", "C"),
        item("4", "movie", "D"),
        item("5", "anime", "E"),
        item("6", "channel", "F"),
        item("7", "zebra", "G"),
    ]);
    let view = new_view::<NotRemovedFilter>(&ctx);
    assert_eq!(
        offered(&view.selectable),
        vec![
            None,
            Some("zebra"),
            Some("anime"),
            Some("channel"),
            Some("series"),
            Some("movie"),
        ]
    );
}

#[test]
fn load_selects_and_marks_the_entries() {
    let ctx = ctx_with(vec![item("a", "movie", "A"), item("b", "series", "B")]);
    let mut view = new_view::<NotRemovedFilter>(&ctx);
    let effects = view.update(&load(Some("movie"), Sort::Name, 1), &ctx);
    assert!(effects.has_changed);
    assert!(effects.is_empty());
    assert_eq!(
        view.selected,
        Some(Selected {
            request: request(Some("movie"), Sort::Name, 1)
        })
    );
    let marked: Vec<bool> = view.selectable.types.iter().map(|t| t.selected).collect();
    assert_eq!(marked, vec![false, false, true]);
    let marked: Vec<bool> = view.selectable.sorts.iter().map(|s| s.selected).collect();
    assert_eq!(marked, vec![false, true, false, false]);
    for entry in &view.selectable.types {
        assert_eq!(entry.request.sort, Sort::Name);
        assert_eq!(entry.request.page.get(), 1);
        assert_eq!(entry.request.type_, entry.type_);
    }
    for entry in &view.selectable.sorts {
        assert_eq!(entry.request.type_, Some("movie".to_string()));
        assert_eq!(entry.request.page.get(), 1);
        assert_eq!(entry.request.sort, entry.sort);
    }
    assert_eq!(ids(&view.catalog), vec!["a"]);
}

#[test]
fn load_without_type_marks_the_entry_for_all_types() {
    let ctx = ctx_with(vec![item("a", "movie", "A"), item("b", "series", "B")]);
    let mut view = new_view::<NotRemovedFilter>(&ctx);
    view.update(&load(None, Sort::LastWatched, 1), &ctx);
    let marked: Vec<bool> = view.selectable.types.iter().map(|t| t.selected).collect();
    assert_eq!(marked, vec![true, false, false]);
    assert_eq!(view.catalog.len(), 2);
}

#[test]
fn load_of_a_type_without_items_shows_nothing_and_marks_nothing() {
    let ctx = ctx_with(vec![item("a", "movie", "A")]);
    let mut view = new_view::<NotRemovedFilter>(&ctx);
    view.update(&load(Some("series"), Sort::LastWatched, 1), &ctx);
    assert!(view.catalog.is_empty());
    assert_eq!(offered(&view.selectable), vec![None, Some("movie")]);
    assert!(view.selectable.types.iter().all(|t| !t.selected));
}

#[test]
fn the_same_message_twice_changes_nothing_the_second_time() {
    let ctx = ctx_with(vec![item("a", "movie", "A"), item("b", "series", "B")]);
    let mut view = new_view::<NotRemovedFilter>(&ctx);
    let first = view.update(&load(Some("movie"), Sort::Name, 1), &ctx);
    let selected = view.selected.clone();
    let selectable = view.selectable.clone();
    let catalog = view.catalog.clone();
    let second = view.update(&load(Some("movie"), Sort::Name, 1), &ctx);
    assert!(first.has_changed);
    assert!(!second.has_changed);
    assert!(second.is_empty());
    assert_eq!(view.selected, selected);
    assert_eq!(view.selectable, selectable);
    assert_eq!(view.catalog, catalog);
    let third = view.update(&Msg::Internal(Internal::LibraryChanged), &ctx);
    assert!(!third.has_changed);
    assert_eq!(view.catalog, catalog);
}

#[test]
fn unload_resets_the_view() {
    let ctx = ctx_with(many(CATALOG_PAGE_SIZE * 2 + 1));
    let mut view = new_view::<NotRemovedFilter>(&ctx);
    view.update(&load(Some("movie"), Sort::Watched, 2), &ctx);
    assert!(view.selectable.prev_page.is_some());
    assert!(view.selectable.next_page.is_some());
    assert_eq!(view.catalog.len(), CATALOG_PAGE_SIZE);
    let effects = view.update(&Msg::Action(Action::Unload), &ctx);
    assert!(effects.has_changed);
    assert_eq!(view.selected, None);
    assert!(view.catalog.is_empty());
    assert!(view.selectable.types.iter().all(|t| !t.selected));
    assert!(view.selectable.sorts.iter().all(|s| !s.selected));
    assert_eq!(view.selectable.prev_page, None);
    assert_eq!(view.selectable.next_page, None);
    let again = view.update(&Msg::Action(Action::Unload), &ctx);
    assert!(!again.has_changed);
}

#[test]
fn library_changed_shows_the_library_as_it_is_now() {
    let mut ctx = ctx_with(vec![item("a", "movie", "A")]);
    let mut view = new_view::<NotRemovedFilter>(&ctx);
    view.update(&load(None, Sort::Name, 1), &ctx);
    assert_eq!(ids(&view.catalog), vec!["a"]);
    ctx.library.insert(item("b", "series", "B"));
    assert_eq!(ids(&view.catalog), vec!["a"]);
    let effects = view.update(&Msg::Internal(Internal::LibraryChanged), &ctx);
    assert!(effects.has_changed);
    assert_eq!(ids(&view.catalog), vec!["a", "b"]);
    assert_eq!(
        offered(&view.selectable),
        vec![None, Some("series"), Some("movie")]
    );
    assert_eq!(
        view.selected,
        Some(Selected {
            request: request(None, Sort::Name, 1)
        })
    );
}

#[test]
fn a_message_that_the_view_does_not_know_changes_nothing() {
    let ctx = ctx_with(vec![item("a", "movie", "A")]);
    let mut view = new_view::<NotRemovedFilter>(&ctx);
    view.update(&load(None, Sort::Name, 1), &ctx);
    let catalog = view.catalog.clone();
    let effects = view.update(
        &Msg::Internal(Internal::UpdateLibraryItem(item("b", "series", "B"))),
        &ctx,
    );
    assert!(!effects.has_changed);
    assert!(effects.is_empty());
    assert_eq!(view.catalog, catalog);
}

#[test]
fn previous_page_is_offered_behind_the_first() {
    let ctx = ctx_with(vec![item("a", "movie", "A")]);
    let mut view = new_view::<NotRemovedFilter>(&ctx);
    view.update(&load(Some("movie"), Sort::Watched, 1), &ctx);
    assert_eq!(view.selectable.prev_page, None);
    view.update(&load(Some("movie"), Sort::Watched, 2), &ctx);
    assert_eq!(
        view.selectable.prev_page,
        Some(SelectablePage {
            request: request(Some("movie"), Sort::Watched, 1)
        })
    );
    view.update(&load(None, Sort::Name, 7), &ctx);
    assert_eq!(
        view.selectable.prev_page,
        Some(SelectablePage {
            request: request(None, Sort::Name, 6)
        })
    );
    assert_eq!(view.selectable.next_page, None);
    assert!(view.catalog.is_empty());
}

#[test]
fn next_page_is_offered_while_items_are_left() {
    let ctx = ctx_with(many(CATALOG_PAGE_SIZE + 1));
    let mut view = new_view::<NotRemovedFilter>(&ctx);
    view.update(&load(None, Sort::NotWatched, 1), &ctx);
    assert_eq!(
        view.selectable.next_page,
        Some(SelectablePage {
            request: request(None, Sort::NotWatched, 2)
        })
    );
    assert_eq!(view.catalog.len(), CATALOG_PAGE_SIZE);
    assert_eq!(view.catalog[0].id, "id0000");
    assert_eq!(view.catalog[CATALOG_PAGE_SIZE - 1].id, "id0099");
    view.update(&load(None, Sort::NotWatched, 2), &ctx);
    assert_eq!(view.selectable.next_page, None);
    assert_eq!(ids(&view.catalog), vec!["id0100"]);
}

#[test]
fn next_page_is_not_offered_behind_a_full_last_page() {
    let ctx = ctx_with(many(CATALOG_PAGE_SIZE));
    let mut view = new_view::<NotRemovedFilter>(&ctx);
    view.update(&load(None, Sort::NotWatched, 1), &ctx);
    assert_eq!(view.selectable.next_page, None);
    assert_eq!(view.catalog.len(), CATALOG_PAGE_SIZE);
}

#[test]
fn next_page_counts_the_items_of_the_selected_type_only() {
    let mut items = many(CATALOG_PAGE_SIZE);
    items.push(item("s", "series", "S"));
    let ctx = ctx_with(items);
    let mut view = new_view::<NotRemovedFilter>(&ctx);
    view.update(&load(Some("movie"), Sort::NotWatched, 1), &ctx);
    assert_eq!(view.selectable.next_page, None);
    view.update(&load(None, Sort::NotWatched, 1), &ctx);
    assert!(view.selectable.next_page.is_some());
}

#[test]
fn the_greatest_page_shows_nothing() {
    let ctx = ctx_with(vec![item("a", "movie", "A")]);
    let mut view = new_view::<NotRemovedFilter>(&ctx);
    view.update(&load(None, Sort::Name, usize::MAX), &ctx);
    assert!(view.catalog.is_empty());
    assert_eq!(view.selectable.next_page, None);
    assert_eq!(
        view.selectable.prev_page,
        Some(SelectablePage {
            request: request(None, Sort::Name, usize::MAX - 1)
        })
    );
}

#[test]
fn sort_by_watched_puts_the_most_watched_first() {
    let ctx = ctx_with(vec![watched("A", 3), watched("B", 5), watched("C", 5)]);
    let mut view = new_view::<NotRemovedFilter>(&ctx);
    view.update(&load(None, Sort::Watched, 1), &ctx);
    assert_eq!(ids(&view.catalog), vec!["B", "C", "A"]);
}

#[test]
fn sort_by_not_watched_puts_the_least_watched_first() {
    let ctx = ctx_with(vec![watched("B", 5), watched("A", 3), watched("C", 5)]);
    let mut view = new_view::<NotRemovedFilter>(&ctx);
    view.update(&load(None, Sort::NotWatched, 1), &ctx);
    assert_eq!(ids(&view.catalog), vec!["A", "B", "C"]);
}

#[test]
fn sort_by_last_watched_puts_the_latest_first_and_the_unwatched_last() {
    let mut early = item("early", "movie", "x");
    early.state.last_watched = Some(1_000);
    let mut late = item("late", "movie", "x");
    late.state.last_watched = Some(2_000);
    let never = item("never", "movie", "x");
    let mut before_time = item("before", "movie", "x");
    before_time.state.last_watched = Some(-5);
    let ctx = ctx_with(vec![never, early, before_time, late]);
    let mut view = new_view::<NotRemovedFilter>(&ctx);
    view.update(&load(None, Sort::LastWatched, 1), &ctx);
    assert_eq!(ids(&view.catalog), vec!["late", "early", "before", "never"]);
}

#[test]
fn sort_by_name_ignores_case() {
    let ctx = ctx_with(vec![
        item("1", "movie", "banana"),
        item("2", "movie", "Apple"),
        item("3", "movie", "cherry"),
        item("4", "movie", "Banana"),
        item("5", "movie", "ÉCLAIR"),
        item("6", "movie", "éclair"),
    ]);
    let mut view = new_view::<NotRemovedFilter>(&ctx);
    view.update(&load(None, Sort::Name, 1), &ctx);
    assert_eq!(ids(&view.catalog), vec!["2", "1", "4", "3", "5", "6"]);
}

#[test]
fn ties_are_shown_in_the_order_of_identities() {
    let one_way = ctx_with(vec![watched("c", 1), watched("a", 1), watched("b", 1)]);
    let other_way = ctx_with(vec![watched("b", 1), watched("c", 1), watched("a", 1)]);
    for sort in [Sort::LastWatched, Sort::Name, Sort::Watched, Sort::NotWatched] {
        let mut view = new_view::<NotRemovedFilter>(&one_way);
        view.update(&load(None, sort, 1), &one_way);
        assert_eq!(ids(&view.catalog), vec!["a", "b", "c"]);
        let mut view = new_view::<NotRemovedFilter>(&other_way);
        view.update(&load(None, sort, 1), &other_way);
        assert_eq!(ids(&view.catalog), vec!["a", "b", "c"]);
    }
}

#[test]
fn compare_items_by_each_sort() {
    let mut a = item("a", "movie", "Zed");
    a.state.times_watched = 2;
    a.state.last_watched = Some(10);
    let mut b = item("b", "movie", "alpha");
    b.state.times_watched = 5;
    b.state.last_watched = None;
    assert_eq!(compare_items(&a, &b, &Sort::LastWatched), Ordering::Less);
    assert_eq!(compare_items(&a, &b, &Sort::Name), Ordering::Greater);
    assert_eq!(compare_items(&a, &b, &Sort::Watched), Ordering::Greater);
    assert_eq!(compare_items(&a, &b, &Sort::NotWatched), Ordering::Less);
    assert_eq!(compare_items(&a, &a, &Sort::Name), Ordering::Equal);
    let twin = LibraryItem {
        id: "c".to_string(),
        ..a.clone()
    };
    assert_eq!(compare_items(&a, &twin, &Sort::Watched), Ordering::Less);
    assert_eq!(compare_items(&twin, &a, &Sort::Watched), Ordering::Greater);
}

#[test]
fn removed_items_are_left_out_whatever_their_state() {
    let mut gone = item("gone", "series", "Gone");
    gone.removed = true;
    gone.state.time_offset = 500;
    gone.state.times_watched = 9;
    gone.state.last_watched = Some(1);
    let ctx = ctx_with(vec![item("kept", "movie", "Kept"), gone]);
    let mut view = new_view::<NotRemovedFilter>(&ctx);
    assert_eq!(offered(&view.selectable), vec![None, Some("movie")]);
    view.update(&load(None, Sort::Watched, 1), &ctx);
    assert_eq!(ids(&view.catalog), vec!["kept"]);
    view.update(&load(Some("series"), Sort::Watched, 1), &ctx);
    assert!(view.catalog.is_empty());
}

#[test]
fn continue_watching_takes_in_what_is_in_progress_or_awaited() {
    let mut in_progress = item("progress", "movie", "P");
    in_progress.state.time_offset = 77;
    let awaited = item("awaited", "series", "A");
    let idle = item("idle", "channel", "I");
    let emptied = item("emptied", "tv", "E");
    let mut ctx = ctx_with(vec![in_progress, awaited, idle, emptied]);
    ctx.notifications
        .insert("awaited".to_string(), vec!["video1".to_string()]);
    ctx.notifications.insert("emptied".to_string(), vec![]);
    let mut view = new_view::<ContinueWatchingFilter>(&ctx);
    assert_eq!(
        offered(&view.selectable),
        vec![None, Some("series"), Some("movie")]
    );
    view.update(&load(None, Sort::Name, 1), &ctx);
    assert_eq!(ids(&view.catalog), vec!["awaited", "progress"]);
    let mut all = new_view::<NotRemovedFilter>(&ctx);
    all.update(&load(None, Sort::Name, 1), &ctx);
    assert_eq!(all.catalog.len(), 4);
}

#[test]
fn filters_decide_by_themselves() {
    let mut removed = item("a", "movie", "A");
    removed.removed = true;
    removed.state.time_offset = 1;
    let notifications = NotificationsBucket::new();
    assert!(!NotRemovedFilter::predicate(&removed, &notifications));
    assert!(ContinueWatchingFilter::predicate(&removed, &notifications));
    let fresh = item("b", "movie", "B");
    assert!(NotRemovedFilter::predicate(&fresh, &notifications));
    assert!(!ContinueWatchingFilter::predicate(&fresh, &notifications));
}

#[test]
fn selectable_update_reports_a_change_only_where_there_is_one() {
    let ctx = ctx_with(vec![item("a", "movie", "A")]);
    let selected = Some(Selected {
        request: request(None, Sort::Name, 2),
    });
    let mut selectable = Selectable::default();
    let first = selectable_update::<NotRemovedFilter>(
        &mut selectable,
        &selected,
        &ctx.library,
        &ctx.notifications,
        &ctx.type_priorities,
    );
    assert!(first.has_changed);
    assert!(first.is_empty());
    assert_eq!(offered(&selectable), vec![None, Some("movie")]);
    assert!(selectable.prev_page.is_some());
    let second = selectable_update::<NotRemovedFilter>(
        &mut selectable,
        &selected,
        &ctx.library,
        &ctx.notifications,
        &ctx.type_priorities,
    );
    assert!(!second.has_changed);
}

#[test]
fn catalog_update_reports_a_change_only_where_there_is_one() {
    let ctx = ctx_with(vec![watched("a", 1), watched("b", 2)]);
    let selected = Some(Selected {
        request: request(None, Sort::Watched, 1),
    });
    let mut catalog = vec![];
    let first = catalog_update::<NotRemovedFilter>(
        &mut catalog,
        &selected,
        &ctx.library,
        &ctx.notifications,
    );
    assert!(first.has_changed);
    assert!(first.is_empty());
    assert_eq!(ids(&catalog), vec!["b", "a"]);
    let second = catalog_update::<NotRemovedFilter>(
        &mut catalog,
        &selected,
        &ctx.library,
        &ctx.notifications,
    );
    assert!(!second.has_changed);
    let third =
        catalog_update::<NotRemovedFilter>(&mut catalog, &None, &ctx.library, &ctx.notifications);
    assert!(third.has_changed);
    assert!(catalog.is_empty());
}

#[test]
fn sorts_are_offered_in_their_fixed_order() {
    assert_eq!(
        Sort::iter(),
        vec![Sort::LastWatched, Sort::Name, Sort::Watched, Sort::NotWatched]
    );
    assert_eq!(Sort::default(), Sort::LastWatched);
}
