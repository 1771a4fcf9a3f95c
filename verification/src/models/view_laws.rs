//! What holds of every view of the library, whatever the library holds and
//! whatever is selected.

use crate::constants::CATALOG_PAGE_SIZE;
use crate::models::common::lemma_priority_total;
use crate::models::common::lemma_priority_transitive;
use crate::models::ctx::CtxView;
use crate::models::library_with_filters::catalog_of;
use crate::models::library_with_filters::ContinueWatchingFilter;
use crate::models::library_with_filters::eligible_items;
use crate::models::library_with_filters::eligible_types;
use crate::models::library_with_filters::has_type;
use crate::models::library_with_filters::item_before;
use crate::models::library_with_filters::key_before;
use crate::models::library_with_filters::lemma_item_before_total;
use crate::models::library_with_filters::LibraryFilter;
use crate::models::library_with_filters::LibraryRequestView;
use crate::models::library_with_filters::LibraryWithFiltersView;
use crate::models::library_with_filters::NotRemovedFilter;
use crate::models::library_with_filters::offered_before;
use crate::models::library_with_filters::page_of;
use crate::models::library_with_filters::page_start;
use crate::models::library_with_filters::selectable_of;
use crate::models::library_with_filters::SelectablePageView;
use crate::models::library_with_filters::selected_type;
use crate::models::library_with_filters::SelectedView;
use crate::models::library_with_filters::shown_before;
use crate::models::library_with_filters::shown_in;
use crate::models::library_with_filters::shown_items;
use crate::models::library_with_filters::Sort;
use crate::models::library_with_filters::taken_in;
use crate::models::library_with_filters::type_entries;
use crate::models::library_with_filters::types_of;
use crate::models::library_with_filters::view_after;
use crate::models::library_with_filters::view_effects;
use crate::order::in_order;
use crate::order::lemma_in_order_exists;
use crate::order::orders_all_of;
use crate::runtime::effects::EffectsView;
use crate::runtime::msg::ActionView;
use crate::runtime::msg::MsgView;
use crate::text::lemma_text_before_asymmetric;
use crate::text::lemma_text_before_total;
use crate::text::lemma_text_before_transitive;
use crate::text::lowercase_of;
use crate::text::text_before;
use crate::types::library::lemma_filter_unique_ids;
use crate::types::library::LibraryItemView;
use crate::types::library::unique_ids;
use crate::types::notifications::has_pending;
use crate::types::notifications::NotificationsEntryView;
use vstd::prelude::*;
use vstd::relations::sorted_by;

verus! {

/// What `sort` looks at orders items the way numbers are ordered: where it
/// puts `a` before `b`, any third item comes after `a` or before `b`.
proof fn lemma_key_before_between(
    a: LibraryItemView,
    b: LibraryItemView,
    c: LibraryItemView,
    sort: Sort,
)
    requires
        key_before(a, b, sort),
    ensures
        key_before(a, c, sort) || key_before(c, b, sort),
{
    if sort == Sort::Name {
        let la = lowercase_of(a.name);
        let lb = lowercase_of(b.name);
        let lc = lowercase_of(c.name);
        lemma_text_before_total(la, lc);
        lemma_text_before_total(lc, lb);
        if text_before(lc, la) {
            lemma_text_before_transitive(lc, la, lb);
        }
    }
}

/// The order in which items are shown is transitive.
pub proof fn lemma_item_before_transitive(
    a: LibraryItemView,
    b: LibraryItemView,
    c: LibraryItemView,
    sort: Sort,
)
    requires
        item_before(a, b, sort),
        item_before(b, c, sort),
    ensures
        item_before(a, c, sort),
{
    lemma_text_before_asymmetric(lowercase_of(a.name), lowercase_of(b.name));
    lemma_text_before_asymmetric(lowercase_of(b.name), lowercase_of(c.name));
    if key_before(a, b, sort) {
        lemma_key_before_between(a, b, c, sort);
    }
    if key_before(b, c, sort) {
        lemma_key_before_between(b, c, a, sort);
    }
    if key_before(c, a, sort) {
        lemma_key_before_between(c, a, b, sort);
    }
    if text_before(a.id, b.id) && text_before(b.id, c.id) {
        lemma_text_before_transitive(a.id, b.id, c.id);
    }
}

/// Items with identities of their own can be put in the order in which `sort`
/// shows them.
pub proof fn lemma_items_can_be_shown(items: Seq<LibraryItemView>, sort: Sort)
    requires
        unique_ids(items),
    ensures
        orders_all_of(items, shown_before(sort)),
{
    assert forall|a: LibraryItemView, b: LibraryItemView|
        items.contains(a) && items.contains(b) && a != b implies #[trigger] shown_before(sort)(
        a,
        b,
    ) || shown_before(sort)(b, a) by {
        let i = choose|i: int| 0 <= i < items.len() && items[i] == a;
        let j = choose|j: int| 0 <= j < items.len() && items[j] == b;
        if i < j {
            assert(items[i].id != items[j].id);
        } else {
            assert(items[j].id != items[i].id);
        }
        lemma_item_before_total(a, b, sort);
    }
    assert forall|a: LibraryItemView, b: LibraryItemView, c: LibraryItemView|
        items.contains(a) && items.contains(b) && items.contains(c) && #[trigger] shown_before(
            sort,
        )(a, b) && #[trigger] shown_before(sort)(b, c) implies shown_before(sort)(a, c) by {
        lemma_item_before_transitive(a, b, c, sort);
    }
}

/// Any types can be put in the order in which they are offered.
pub proof fn lemma_types_can_be_offered(types: Seq<Seq<char>>, table: Seq<Seq<char>>)
    ensures
        orders_all_of(types, offered_before(table)),
{
    assert forall|a: Seq<char>, b: Seq<char>|
        types.contains(a) && types.contains(b) && a != b implies #[trigger] offered_before(table)(
        a,
        b,
    ) || offered_before(table)(b, a) by {
        lemma_priority_total(a, b, table);
    }
    assert forall|a: Seq<char>, b: Seq<char>, c: Seq<char>|
        types.contains(a) && types.contains(b) && types.contains(c) && #[trigger] offered_before(
            table,
        )(a, b) && #[trigger] offered_before(table)(b, c) implies offered_before(table)(a, c) by {
        lemma_priority_transitive(c, b, a, table);
    }
}

/// The items that are shown, in the order in which `sort` shows them, are
/// just the items that pass the filter and have the type asked for, each
/// before all that follow it.
pub proof fn lemma_shown_in_order<F: LibraryFilter>(
    library: Seq<LibraryItemView>,
    notifications: Seq<NotificationsEntryView>,
    type_: Option<Seq<char>>,
    sort: Sort,
)
    requires
        unique_ids(library),
    ensures
        ({
            let shown = shown_items::<F>(library, notifications, type_);
            let ranked = in_order(shown.to_set(), shown_before(sort));
            &&& ranked.to_set() == shown.to_set()
            &&& sorted_by(ranked, shown_before(sort))
            &&& ranked.len() == shown.len()
            &&& forall|i: int|
                0 <= i < ranked.len() ==> library.contains(#[trigger] ranked[i]) && F::eligible(
                    ranked[i],
                    notifications,
                ) && has_type(ranked[i], type_)
        }),
{
    let shown = shown_items::<F>(library, notifications, type_);
    let ranked = in_order(shown.to_set(), shown_before(sort));
    lemma_filter_unique_ids(library, shown_in::<F>(notifications, type_));
    lemma_items_can_be_shown(shown, sort);
    lemma_in_order_exists(shown, shown_before(sort));
    assert(ranked.no_duplicates()) by {
        assert forall|i: int, j: int|
            0 <= i < ranked.len() && 0 <= j < ranked.len() && i != j implies ranked[i]
            != ranked[j] by {
            crate::models::library_with_filters::lemma_item_before_asymmetric(
                ranked[i],
                ranked[j],
                sort,
            );
            if i < j {
                assert(shown_before(sort)(ranked[i], ranked[j]));
            } else {
                assert(shown_before(sort)(ranked[j], ranked[i]));
            }
        }
    }
    ranked.unique_seq_to_set();
    shown.unique_seq_to_set();
    assert forall|i: int| 0 <= i < ranked.len() implies library.contains(#[trigger] ranked[i])
        && F::eligible(ranked[i], notifications) && has_type(ranked[i], type_) by {
        assert(ranked.contains(ranked[i]));
        assert(ranked.to_set().contains(ranked[i]));
        assert(shown.contains(ranked[i]));
        let k = choose|k: int| 0 <= k < shown.len() && shown[k] == ranked[i];
        library.lemma_filter_pred(shown_in::<F>(notifications, type_), k);
        library.lemma_filter_contains_rev(shown_in::<F>(notifications, type_), ranked[i]);
    }
}

/// A selection whose page is not the first is offered the page before: the
/// same request, but for the page one lower.
pub proof fn lemma_prev_page<F: LibraryFilter>(
    selected: SelectedView,
    library: Seq<LibraryItemView>,
    notifications: Seq<NotificationsEntryView>,
    table: Seq<Seq<char>>,
)
    requires
        selected.request.page > 1,
    ensures
        selectable_of::<F>(Some(selected), library, notifications, table).prev_page == Some(
            SelectablePageView {
                request: LibraryRequestView {
                    type_: selected.request.type_,
                    sort: selected.request.sort,
                    page: (selected.request.page - 1) as nat,
                },
            },
        ),
{
}

/// A selection is offered the page after exactly where more items are shown
/// than the pages up to the selected one hold; that page is the same request,
/// but for the page one higher.
pub proof fn lemma_next_page<F: LibraryFilter>(
    selected: SelectedView,
    library: Seq<LibraryItemView>,
    notifications: Seq<NotificationsEntryView>,
    table: Seq<Seq<char>>,
)
    requires
        selected.request.page >= 1,
    ensures
        ({
            let shown = shown_items::<F>(library, notifications, selected.request.type_).len();
            let next = selectable_of::<F>(Some(selected), library, notifications, table).next_page;
            if shown <= selected.request.page * CATALOG_PAGE_SIZE {
                next is None
            } else {
                next == Some(
                    SelectablePageView {
                        request: LibraryRequestView {
                            type_: selected.request.type_,
                            sort: selected.request.sort,
                            page: selected.request.page + 1,
                        },
                    },
                )
            }
        }),
{
    assert(page_start(selected.request.page + 1) == selected.request.page * CATALOG_PAGE_SIZE)
        by (nonlinear_arith)
        requires
            page_start(selected.request.page + 1) == (selected.request.page + 1 - 1)
                * CATALOG_PAGE_SIZE,
    ;
}

/// A message taken a second time changes nothing: the view stays what the
/// first time made of it, and the outcome says so.
pub proof fn lemma_update_twice<F: LibraryFilter>(
    state: LibraryWithFiltersView,
    msg: MsgView,
    ctx: CtxView,
)
    ensures
        view_after::<F>(view_after::<F>(state, msg, ctx), msg, ctx) == view_after::<F>(
            state,
            msg,
            ctx,
        ),
        view_effects::<F>(view_after::<F>(state, msg, ctx), msg, ctx)
            == EffectsView::none().unchanged(),
{
}

/// After an unload nothing is selected, no items are shown, no entry is marked
/// as selected, and no page is offered before or after.
pub proof fn lemma_unload<F: LibraryFilter>(state: LibraryWithFiltersView, ctx: CtxView)
    ensures
        ({
            let after = view_after::<F>(state, MsgView::Action(ActionView::Unload), ctx);
            &&& after.selected is None
            &&& after.catalog == Seq::<LibraryItemView>::empty()
            &&& forall|i: int|
                0 <= i < after.selectable.types.len() ==> !(
                #[trigger] after.selectable.types[i]).selected
            &&& forall|i: int|
                0 <= i < after.selectable.sorts.len() ==> !(
                #[trigger] after.selectable.sorts[i]).selected
            &&& after.selectable.prev_page is None
            &&& after.selectable.next_page is None
        }),
{
}

/// A page never holds more items than the size of a page.
pub proof fn lemma_page_fits(items: Seq<LibraryItemView>, page: nat)
    requires
        page >= 1,
    ensures
        page_of(items, page).len() <= CATALOG_PAGE_SIZE,
{
    assert(page_start(page + 1) == page_start(page) + CATALOG_PAGE_SIZE) by (nonlinear_arith)
        requires
            page_start(page) == (page - 1) * CATALOG_PAGE_SIZE,
            page_start(page + 1) == (page + 1 - 1) * CATALOG_PAGE_SIZE,
    ;
}

/// The items of a view are never more than the size of a page, and each is an
/// item of the library that passes the filter and has the type selected.
pub proof fn lemma_catalog<F: LibraryFilter>(
    selected: Option<SelectedView>,
    library: Seq<LibraryItemView>,
    notifications: Seq<NotificationsEntryView>,
)
    requires
        unique_ids(library),
        selected matches Some(s) ==> s.request.page >= 1,
    ensures
        ({
            let catalog = catalog_of::<F>(selected, library, notifications);
            &&& catalog.len() <= CATALOG_PAGE_SIZE
            &&& forall|i: int|
                0 <= i < catalog.len() ==> library.contains(#[trigger] catalog[i]) && F::eligible(
                    catalog[i],
                    notifications,
                ) && (selected matches Some(s) && has_type(catalog[i], s.request.type_))
            &&& forall|i: int, j: int|
                0 <= i < j < catalog.len() ==> (selected matches Some(s) && item_before(
                    #[trigger] catalog[i],
                    #[trigger] catalog[j],
                    s.request.sort,
                ))
        }),
{
    if let Some(s) = selected {
        let ranked = in_order(
            shown_items::<F>(library, notifications, s.request.type_).to_set(),
            shown_before(s.request.sort),
        );
        lemma_shown_in_order::<F>(library, notifications, s.request.type_, s.request.sort);
        lemma_page_fits(ranked, s.request.page);
        let catalog = page_of(ranked, s.request.page);
        assert forall|i: int, j: int| 0 <= i < j < catalog.len() implies item_before(
            #[trigger] catalog[i],
            #[trigger] catalog[j],
            s.request.sort,
        ) by {
            assert(shown_before(s.request.sort)(
                ranked[page_start(s.request.page) + i],
                ranked[page_start(s.request.page) + j],
            ));
        }
        assert forall|i: int| 0 <= i < catalog.len() implies library.contains(
            #[trigger] catalog[i],
        ) && F::eligible(catalog[i], notifications) && has_type(catalog[i], s.request.type_) by {
            assert(catalog[i] == ranked[page_start(s.request.page) + i]);
        }
    }
}

/// The entries that offer types begin with the one for all types; after it
/// comes one entry for each type of an item that the filter takes in, no type
/// twice, and of two types first the one that the table puts behind the other.
/// Each entry is marked exactly where its type is the selected one.
pub proof fn lemma_types_offered<F: LibraryFilter>(
    selected: Option<SelectedView>,
    library: Seq<LibraryItemView>,
    notifications: Seq<NotificationsEntryView>,
    table: Seq<Seq<char>>,
)
    ensures
        ({
            let types = selectable_of::<F>(selected, library, notifications, table).types;
            &&& types.len() >= 1
            &&& types[0].type_ is None
            &&& forall|i: int| 1 <= i < types.len() ==> (#[trigger] types[i]).type_ is Some
            &&& forall|tag: Seq<char>|
                eligible_types::<F>(library, notifications).contains(tag) <==> exists|i: int|
                    1 <= i < types.len() && (#[trigger] types[i]).type_ == Some(tag)
            &&& forall|i: int, j: int|
                1 <= i < j < types.len() ==> offered_before(table)(
                    (#[trigger] types[i]).type_->0,
                    (#[trigger] types[j]).type_->0,
                )
            &&& forall|i: int|
                0 <= i < types.len() ==> (#[trigger] types[i]).selected == (selected matches Some(
                    s,
                ) && s.request.type_ == types[i].type_)
        }),
{
    let tags = types_of(eligible_items::<F>(library, notifications));
    let order = in_order(eligible_types::<F>(library, notifications), offered_before(table));
    let types = type_entries(selected, order);
    lemma_types_can_be_offered(tags, table);
    lemma_in_order_exists(tags, offered_before(table));
    assert forall|tag: Seq<char>|
        eligible_types::<F>(library, notifications).contains(tag) <==> exists|i: int|
            1 <= i < types.len() && (#[trigger] types[i]).type_ == Some(tag) by {
        if eligible_types::<F>(library, notifications).contains(tag) {
            assert(order.to_set().contains(tag));
            assert(order.contains(tag));
            let k = choose|k: int| 0 <= k < order.len() && order[k] == tag;
            assert(types[k + 1].type_ == Some(tag));
        }
        if exists|i: int| 1 <= i < types.len() && (#[trigger] types[i]).type_ == Some(tag) {
            let i = choose|i: int| 1 <= i < types.len() && (#[trigger] types[i]).type_ == Some(tag);
            assert(order[i - 1] == tag);
            assert(order.contains(tag));
            assert(order.to_set().contains(tag));
        }
    }
    assert forall|i: int, j: int| 1 <= i < j < types.len() implies offered_before(table)(
        (#[trigger] types[i]).type_->0,
        (#[trigger] types[j]).type_->0,
    ) by {
        assert(offered_before(table)(order[i - 1], order[j - 1]));
    }
}

/// The entries that offer orders are one for each order, in the order in
/// which the orders are written down; each keeps the selected type, turns to
/// the first page, and is marked exactly where its order is the selected one.
pub proof fn lemma_sorts_offered<F: LibraryFilter>(
    selected: Option<SelectedView>,
    library: Seq<LibraryItemView>,
    notifications: Seq<NotificationsEntryView>,
    table: Seq<Seq<char>>,
)
    ensures
        ({
            let sorts = selectable_of::<F>(selected, library, notifications, table).sorts;
            &&& sorts.len() == 4
            &&& sorts[0].sort == Sort::LastWatched
            &&& sorts[1].sort == Sort::Name
            &&& sorts[2].sort == Sort::Watched
            &&& sorts[3].sort == Sort::NotWatched
            &&& forall|i: int|
                0 <= i < sorts.len() ==> (#[trigger] sorts[i]).selected == (selected matches Some(
                    s,
                ) && s.request.sort == sorts[i].sort)
            &&& forall|i: int|
                0 <= i < sorts.len() ==> (#[trigger] sorts[i]).request == (LibraryRequestView {
                    type_: selected_type(selected),
                    sort: sorts[i].sort,
                    page: 1,
                })
        }),
{
}

/// What a test keeps of two libraries that hold the same items is the same
/// set of items.
proof fn lemma_filter_same_items(
    one: Seq<LibraryItemView>,
    other: Seq<LibraryItemView>,
    pred: spec_fn(LibraryItemView) -> bool,
)
    requires
        one.to_set() == other.to_set(),
    ensures
        one.filter(pred).to_set() == other.filter(pred).to_set(),
{
    assert forall|item: LibraryItemView|
        one.filter(pred).to_set().contains(item) == other.filter(pred).to_set().contains(
            item,
        ) by {
        lemma_filter_member(one, pred, item);
        lemma_filter_member(other, pred, item);
        if one.contains(item) {
            assert(one.to_set().contains(item));
            assert(other.to_set().contains(item));
        }
        if other.contains(item) {
            assert(other.to_set().contains(item));
            assert(one.to_set().contains(item));
        }
    }
    assert(one.filter(pred).to_set() =~= other.filter(pred).to_set());
}

/// A test keeps exactly the items that pass it.
proof fn lemma_filter_member(
    items: Seq<LibraryItemView>,
    pred: spec_fn(LibraryItemView) -> bool,
    item: LibraryItemView,
)
    ensures
        items.filter(pred).contains(item) <==> items.contains(item) && pred(item),
{
    if items.filter(pred).contains(item) {
        let k = choose|k: int| 0 <= k < items.filter(pred).len() && items.filter(pred)[k] == item;
        items.lemma_filter_pred(pred, k);
        items.lemma_filter_contains_rev(pred, item);
    }
    if items.contains(item) && pred(item) {
        let k = choose|k: int| 0 <= k < items.len() && items[k] == item;
        items.lemma_filter_contains(pred, k);
    }
}

/// The order in which a library holds its items means nothing: two libraries
/// that hold the same items offer the same and show the same.
pub proof fn lemma_order_of_library_is_irrelevant<F: LibraryFilter>(
    selected: Option<SelectedView>,
    one: Seq<LibraryItemView>,
    other: Seq<LibraryItemView>,
    notifications: Seq<NotificationsEntryView>,
    table: Seq<Seq<char>>,
)
    requires
        unique_ids(one),
        unique_ids(other),
        one.to_set() == other.to_set(),
    ensures
        selectable_of::<F>(selected, one, notifications, table) == selectable_of::<F>(
            selected,
            other,
            notifications,
            table,
        ),
        catalog_of::<F>(selected, one, notifications) == catalog_of::<F>(
            selected,
            other,
            notifications,
        ),
{
    let type_ = selected_type(selected);
    lemma_filter_same_items(one, other, taken_in::<F>(notifications));
    lemma_filter_same_items(one, other, shown_in::<F>(notifications, type_));
    lemma_filter_unique_ids(one, shown_in::<F>(notifications, type_));
    lemma_filter_unique_ids(other, shown_in::<F>(notifications, type_));
    shown_items::<F>(one, notifications, type_).unique_seq_to_set();
    shown_items::<F>(other, notifications, type_).unique_seq_to_set();
    let types_one = types_of(eligible_items::<F>(one, notifications));
    let types_other = types_of(eligible_items::<F>(other, notifications));
    assert forall|tag: Seq<char>| types_one.to_set().contains(tag) == types_other.to_set().contains(
        tag,
    ) by {
        lemma_types_of_member(eligible_items::<F>(one, notifications), tag);
        lemma_types_of_member(eligible_items::<F>(other, notifications), tag);
        if exists|item: LibraryItemView|
            eligible_items::<F>(one, notifications).contains(item) && item.type_ == tag {
            let item = choose|item: LibraryItemView|
                eligible_items::<F>(one, notifications).contains(item) && item.type_ == tag;
            assert(eligible_items::<F>(one, notifications).to_set().contains(item));
            assert(eligible_items::<F>(other, notifications).contains(item));
        }
        if exists|item: LibraryItemView|
            eligible_items::<F>(other, notifications).contains(item) && item.type_ == tag {
            let item = choose|item: LibraryItemView|
                eligible_items::<F>(other, notifications).contains(item) && item.type_ == tag;
            assert(eligible_items::<F>(other, notifications).to_set().contains(item));
            assert(eligible_items::<F>(one, notifications).contains(item));
        }
    }
    assert(eligible_types::<F>(one, notifications) =~= eligible_types::<F>(other, notifications));
}

/// A type is among the types of some items exactly where one of the items has
/// it.
proof fn lemma_types_of_member(items: Seq<LibraryItemView>, tag: Seq<char>)
    ensures
        types_of(items).contains(tag) <==> exists|item: LibraryItemView|
            items.contains(item) && item.type_ == tag,
{
    if types_of(items).contains(tag) {
        let k = choose|k: int| 0 <= k < types_of(items).len() && types_of(items)[k] == tag;
        assert(items.contains(items[k]) && items[k].type_ == tag);
    }
    if exists|item: LibraryItemView| items.contains(item) && item.type_ == tag {
        let item = choose|item: LibraryItemView| items.contains(item) && item.type_ == tag;
        let k = choose|k: int| 0 <= k < items.len() && items[k] == item;
        assert(types_of(items)[k] == tag);
    }
}

/// Through the filter that leaves removed items out, a removed item is not
/// among the items whose types are offered, nor among the items shown,
/// however far it has been watched.
pub proof fn lemma_removed_is_left_out(
    item: LibraryItemView,
    selected: Option<SelectedView>,
    library: Seq<LibraryItemView>,
    notifications: Seq<NotificationsEntryView>,
)
    requires
        item.removed,
        unique_ids(library),
        selected matches Some(s) ==> s.request.page >= 1,
    ensures
        !eligible_items::<NotRemovedFilter>(library, notifications).contains(item),
        !catalog_of::<NotRemovedFilter>(selected, library, notifications).contains(item),
{
    let taken = eligible_items::<NotRemovedFilter>(library, notifications);
    if taken.contains(item) {
        let k = choose|k: int| 0 <= k < taken.len() && taken[k] == item;
        library.lemma_filter_pred(taken_in::<NotRemovedFilter>(notifications), k);
    }
    lemma_catalog::<NotRemovedFilter>(selected, library, notifications);
}

/// Through the filter for what is being watched, an item of the library that
/// a notification waits for is among the items whose types are offered, and
/// among the items shown for its type and for all types, even where it has not
/// been watched at all.
pub proof fn lemma_awaited_is_taken_in(
    item: LibraryItemView,
    library: Seq<LibraryItemView>,
    notifications: Seq<NotificationsEntryView>,
    sort: Sort,
)
    requires
        library.contains(item),
        has_pending(notifications, item.id),
        unique_ids(library),
    ensures
        eligible_items::<ContinueWatchingFilter>(library, notifications).contains(item),
        eligible_types::<ContinueWatchingFilter>(library, notifications).contains(item.type_),
        in_order(
            shown_items::<ContinueWatchingFilter>(library, notifications, None).to_set(),
            shown_before(sort),
        ).contains(item),
        in_order(
            shown_items::<ContinueWatchingFilter>(
                library,
                notifications,
                Some(item.type_),
            ).to_set(),
            shown_before(sort),
        ).contains(item),
{
    let k = choose|k: int| 0 <= k < library.len() && library[k] == item;
    library.lemma_filter_contains(taken_in::<ContinueWatchingFilter>(notifications), k);
    let taken = eligible_items::<ContinueWatchingFilter>(library, notifications);
    let j = choose|j: int| 0 <= j < taken.len() && taken[j] == item;
    assert(types_of(taken)[j] == item.type_);
    assert(types_of(taken).contains(item.type_));
    library.lemma_filter_contains(shown_in::<ContinueWatchingFilter>(notifications, None), k);
    library.lemma_filter_contains(
        shown_in::<ContinueWatchingFilter>(notifications, Some(item.type_)),
        k,
    );
    lemma_shown_in_order::<ContinueWatchingFilter>(library, notifications, None, sort);
    lemma_shown_in_order::<ContinueWatchingFilter>(
        library,
        notifications,
        Some(item.type_),
        sort,
    );
    let all = shown_items::<ContinueWatchingFilter>(library, notifications, None);
    assert(all.to_set().contains(item));
    let typed = shown_items::<ContinueWatchingFilter>(library, notifications, Some(item.type_));
    assert(typed.to_set().contains(item));
}

} // verus!
