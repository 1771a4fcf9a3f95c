//! A view of the library through a filter: what the user may select, and the
//! page of items that the current selection shows.

use boolinator::Boolinator;
use crate::constants::CATALOG_PAGE_SIZE;
use crate::models::common::compare_with_priorities;
use crate::models::common::eq_update;
use crate::models::common::lemma_priority_asymmetric;
use crate::models::common::lemma_priority_total;
use crate::models::common::priority_before;
use crate::models::ctx::Ctx;
use crate::models::ctx::CtxView;
use crate::order::asymmetric_on_all;
use crate::order::in_order;
use crate::order::lemma_filter_step;
use crate::order::lemma_in_order_is;
use crate::order::lemma_sorted_rearrangement;
use crate::runtime::effects::Effects;
use crate::runtime::effects::EffectsView;
use crate::runtime::msg::Action;
use crate::runtime::msg::ActionLoad;
use crate::runtime::msg::ActionLoadView;
use crate::runtime::msg::ActionView;
use crate::runtime::msg::Internal;
use crate::runtime::msg::InternalView;
use crate::runtime::msg::Msg;
use crate::runtime::msg::MsgView;
use crate::runtime::update::UpdateWithCtx;
use crate::text::compare_text;
use crate::text::lemma_text_before_asymmetric;
use crate::text::lemma_text_before_total;
use crate::text::lowercase_of;
use crate::text::ordering_is;
use crate::text::text_before;
use crate::text::texts_view;
use crate::text::to_lowercase;
use crate::types::library::items_view;
use crate::types::library::lemma_filter_unique_ids;
use crate::types::library::LibraryBucket;
use crate::types::library::LibraryItem;
use crate::types::library::LibraryItemView;
use crate::types::library::unique_ids;
use crate::types::notifications::has_pending;
use crate::types::notifications::NotificationsBucket;
use crate::types::notifications::NotificationsEntryView;
use itertools::Itertools;
use std::cmp::Ordering;
use std::marker::PhantomData;
use vstd::prelude::*;
use vstd::relations::sorted_by;
use vstd::std_specs::cmp::PartialEqSpec;
use vstd::std_specs::cmp::PartialEqSpecImpl;

verus! {

/// Decides which items of the library a view takes in at all, whatever the
/// user selects.
pub trait LibraryFilter {
    /// Whether a view through this filter takes the item in.
    spec fn eligible(item: LibraryItemView, notifications: Seq<NotificationsEntryView>) -> bool;

    /// Whether a view through this filter takes the item in.
    fn predicate(library_item: &LibraryItem, notifications: &NotificationsBucket) -> (eligible:
        bool)
        ensures
            eligible == Self::eligible(library_item@, notifications@),
    ;
}

/// Takes in the items that the user has begun to watch, and those that a
/// notification waits for.
#[derive(Clone, Copy, Debug)]
pub struct ContinueWatchingFilter;

impl LibraryFilter for ContinueWatchingFilter {
    open spec fn eligible(
        item: LibraryItemView,
        notifications: Seq<NotificationsEntryView>,
    ) -> bool {
        item.is_in_continue_watching() || has_pending(notifications, item.id)
    }

    fn predicate(library_item: &LibraryItem, notifications: &NotificationsBucket) -> (eligible:
        bool) {
        library_item.is_in_continue_watching() || notifications.is_pending(&library_item.id)
    }
}

/// Takes in the items that have not been removed.
#[derive(Clone, Copy, Debug)]
pub struct NotRemovedFilter;

impl LibraryFilter for NotRemovedFilter {
    open spec fn eligible(
        item: LibraryItemView,
        notifications: Seq<NotificationsEntryView>,
    ) -> bool {
        !item.removed
    }

    fn predicate(library_item: &LibraryItem, notifications: &NotificationsBucket) -> (eligible:
        bool) {
        !library_item.removed
    }
}

/// The order in which the items of a page are shown.
#[derive(Clone, Copy, Debug, PartialEq, Eq, Structural)]
pub enum Sort {
    LastWatched,
    Name,
    Watched,
    NotWatched,
}

impl Default for Sort {
    fn default() -> (sort: Sort)
        ensures
            sort == Sort::LastWatched,
    {
        Sort::LastWatched
    }
}

impl Sort {
    /// Every order, as the user is offered them.
    pub open spec fn all() -> Seq<Sort> {
        seq![Sort::LastWatched, Sort::Name, Sort::Watched, Sort::NotWatched]
    }

    /// Every order, as the user is offered them.
    pub fn iter() -> (sorts: Vec<Sort>)
        ensures
            sorts@ == Sort::all(),
    {
        let sorts = vec![Sort::LastWatched, Sort::Name, Sort::Watched, Sort::NotWatched];
        assert(sorts@ =~= Sort::all());
        sorts
    }
}

/// The number of a page, counted from one.
#[derive(Clone, Copy, Debug, PartialEq, Eq, Structural)]
pub struct LibraryRequestPage(usize);

impl View for LibraryRequestPage {
    type V = nat;

    closed spec fn view(&self) -> nat {
        self.0 as nat
    }
}

impl LibraryRequestPage {
    #[verifier::type_invariant]
    spec fn positive(self) -> bool {
        self.0 >= 1
    }

    /// The page with the number `number`, unless that is zero.
    pub fn new(number: usize) -> (page: Option<LibraryRequestPage>)
        ensures
            page is Some == (number >= 1),
            page matches Some(p) ==> p@ == number,
    {
        if number >= 1 {
            Some(LibraryRequestPage(number))
        } else {
            None
        }
    }

    /// The number of the page, which is never zero.
    pub fn get(&self) -> (number: usize)
        ensures
            number == self@,
            number >= 1,
    {
        proof {
            use_type_invariant(self);
        }
        self.0
    }
}

impl Default for LibraryRequestPage {
    fn default() -> (page: LibraryRequestPage)
        ensures
            page@ == 1,
    {
        LibraryRequestPage(1)
    }
}

/// The plain value of a type that may be absent.
pub open spec fn type_view(type_: Option<String>) -> Option<Seq<char>> {
    match type_ {
        Some(tag) => Some(tag@),
        None => None,
    }
}

/// Whether two types that may be absent are the same.
fn same_type(a: &Option<String>, b: &Option<String>) -> (same: bool)
    ensures
        same == (type_view(*a) == type_view(*b)),
{
    match (a, b) {
        (Some(x), Some(y)) => *x == *y,
        (None, None) => true,
        _ => false,
    }
}

/// A copy of a type that may be absent.
fn copy_type(type_: &Option<String>) -> (copy: Option<String>)
    ensures
        type_view(copy) == type_view(*type_),
{
    match type_ {
        Some(tag) => Some(tag.clone()),
        None => None,
    }
}

/// What the user asks to see: the items of one type or of all, in one order,
/// one page of them.
#[derive(Debug)]
pub struct LibraryRequest {
    pub type_: Option<String>,
    pub sort: Sort,
    pub page: LibraryRequestPage,
}

/// What a `LibraryRequest` holds, as plain values.
pub struct LibraryRequestView {
    pub type_: Option<Seq<char>>,
    pub sort: Sort,
    pub page: nat,
}

impl View for LibraryRequest {
    type V = LibraryRequestView;

    open spec fn view(&self) -> LibraryRequestView {
        LibraryRequestView { type_: type_view(self.type_), sort: self.sort, page: self.page@ }
    }
}

impl Clone for LibraryRequest {
    fn clone(&self) -> (copy: Self)
        ensures
            copy@ == self@,
    {
        LibraryRequest { type_: copy_type(&self.type_), sort: self.sort, page: self.page }
    }
}

impl PartialEq for LibraryRequest {
    fn eq(&self, other: &Self) -> (same: bool) {
        same_type(&self.type_, &other.type_) && self.sort == other.sort && self.page == other.page
    }
}

impl PartialEqSpecImpl for LibraryRequest {
    open spec fn obeys_eq_spec() -> bool {
        true
    }

    open spec fn eq_spec(&self, other: &Self) -> bool {
        self@ == other@
    }
}

impl Eq for LibraryRequest {

}

/// The request that a view currently shows.
#[derive(Debug)]
pub struct Selected {
    pub request: LibraryRequest,
}

/// What a `Selected` holds, as plain values.
pub struct SelectedView {
    pub request: LibraryRequestView,
}

impl View for Selected {
    type V = SelectedView;

    open spec fn view(&self) -> SelectedView {
        SelectedView { request: self.request@ }
    }
}

impl Clone for Selected {
    fn clone(&self) -> (copy: Self)
        ensures
            copy@ == self@,
    {
        Selected { request: self.request.clone() }
    }
}

impl PartialEq for Selected {
    fn eq(&self, other: &Self) -> (same: bool) {
        self.request == other.request
    }
}

impl PartialEqSpecImpl for Selected {
    open spec fn obeys_eq_spec() -> bool {
        true
    }

    open spec fn eq_spec(&self, other: &Self) -> bool {
        self@ == other@
    }
}

impl Eq for Selected {

}

/// The plain value of a selection that may be absent.
pub open spec fn selected_view(selected: Option<Selected>) -> Option<SelectedView> {
    match selected {
        Some(s) => Some(s@),
        None => None,
    }
}

/// One type that the user may pick, or all of them.
#[derive(Debug)]
pub struct SelectableType {
    /// The type; `None` stands for every type.
    pub type_: Option<String>,
    /// Whether the current selection is this one.
    pub selected: bool,
    /// The request that picking it makes.
    pub request: LibraryRequest,
}

/// What a `SelectableType` holds, as plain values.
pub struct SelectableTypeView {
    pub type_: Option<Seq<char>>,
    pub selected: bool,
    pub request: LibraryRequestView,
}

impl View for SelectableType {
    type V = SelectableTypeView;

    open spec fn view(&self) -> SelectableTypeView {
        SelectableTypeView {
            type_: type_view(self.type_),
            selected: self.selected,
            request: self.request@,
        }
    }
}

impl Clone for SelectableType {
    fn clone(&self) -> (copy: Self)
        ensures
            copy@ == self@,
    {
        SelectableType {
            type_: copy_type(&self.type_),
            selected: self.selected,
            request: self.request.clone(),
        }
    }
}

impl PartialEq for SelectableType {
    fn eq(&self, other: &Self) -> (same: bool) {
        same_type(&self.type_, &other.type_) && self.selected == other.selected && self.request
            == other.request
    }
}

impl PartialEqSpecImpl for SelectableType {
    open spec fn obeys_eq_spec() -> bool {
        true
    }

    open spec fn eq_spec(&self, other: &Self) -> bool {
        self@ == other@
    }
}

impl Eq for SelectableType {

}

/// One order that the user may pick.
#[derive(Debug)]
pub struct SelectableSort {
    pub sort: Sort,
    /// Whether the current selection is in this order.
    pub selected: bool,
    /// The request that picking it makes.
    pub request: LibraryRequest,
}

/// What a `SelectableSort` holds, as plain values.
pub struct SelectableSortView {
    pub sort: Sort,
    pub selected: bool,
    pub request: LibraryRequestView,
}

impl View for SelectableSort {
    type V = SelectableSortView;

    open spec fn view(&self) -> SelectableSortView {
        SelectableSortView { sort: self.sort, selected: self.selected, request: self.request@ }
    }
}

impl Clone for SelectableSort {
    fn clone(&self) -> (copy: Self)
        ensures
            copy@ == self@,
    {
        SelectableSort {
            sort: self.sort,
            selected: self.selected,
            request: self.request.clone(),
        }
    }
}

impl PartialEq for SelectableSort {
    fn eq(&self, other: &Self) -> (same: bool) {
        self.sort == other.sort && self.selected == other.selected && self.request
            == other.request
    }
}

impl PartialEqSpecImpl for SelectableSort {
    open spec fn obeys_eq_spec() -> bool {
        true
    }

    open spec fn eq_spec(&self, other: &Self) -> bool {
        self@ == other@
    }
}

impl Eq for SelectableSort {

}

/// The page before or after the one that is shown.
#[derive(Debug)]
pub struct SelectablePage {
    /// The request that turning to it makes.
    pub request: LibraryRequest,
}

/// What a `SelectablePage` holds, as plain values.
pub struct SelectablePageView {
    pub request: LibraryRequestView,
}

impl View for SelectablePage {
    type V = SelectablePageView;

    open spec fn view(&self) -> SelectablePageView {
        SelectablePageView { request: self.request@ }
    }
}

impl Clone for SelectablePage {
    fn clone(&self) -> (copy: Self)
        ensures
            copy@ == self@,
    {
        SelectablePage { request: self.request.clone() }
    }
}

impl PartialEq for SelectablePage {
    fn eq(&self, other: &Self) -> (same: bool) {
        self.request == other.request
    }
}

impl PartialEqSpecImpl for SelectablePage {
    open spec fn obeys_eq_spec() -> bool {
        true
    }

    open spec fn eq_spec(&self, other: &Self) -> bool {
        self@ == other@
    }
}

impl Eq for SelectablePage {

}

/// The plain value of a page that may be absent.
pub open spec fn page_view(page: Option<SelectablePage>) -> Option<SelectablePageView> {
    match page {
        Some(p) => Some(p@),
        None => None,
    }
}

/// The plain values of a sequence of selectable types, in the same order.
pub open spec fn types_view(types: Seq<SelectableType>) -> Seq<SelectableTypeView> {
    types.map_values(|entry: SelectableType| entry@)
}

/// The plain values of a sequence of selectable orders, in the same order.
pub open spec fn sorts_view(sorts: Seq<SelectableSort>) -> Seq<SelectableSortView> {
    sorts.map_values(|entry: SelectableSort| entry@)
}

/// Everything that the user may pick next.
#[derive(Debug)]
pub struct Selectable {
    pub types: Vec<SelectableType>,
    pub sorts: Vec<SelectableSort>,
    pub prev_page: Option<SelectablePage>,
    pub next_page: Option<SelectablePage>,
}

/// What a `Selectable` holds, as plain values.
pub struct SelectableView {
    pub types: Seq<SelectableTypeView>,
    pub sorts: Seq<SelectableSortView>,
    pub prev_page: Option<SelectablePageView>,
    pub next_page: Option<SelectablePageView>,
}

impl View for Selectable {
    type V = SelectableView;

    open spec fn view(&self) -> SelectableView {
        SelectableView {
            types: types_view(self.types@),
            sorts: sorts_view(self.sorts@),
            prev_page: page_view(self.prev_page),
            next_page: page_view(self.next_page),
        }
    }
}

impl Default for Selectable {
    fn default() -> (selectable: Selectable)
        ensures
            selectable@ == (SelectableView {
                types: Seq::empty(),
                sorts: Seq::empty(),
                prev_page: None,
                next_page: None,
            }),
    {
        let selectable = Selectable {
            types: Vec::new(),
            sorts: Vec::new(),
            prev_page: None,
            next_page: None,
        };
        assert(selectable@.types =~= Seq::empty());
        assert(selectable@.sorts =~= Seq::empty());
        selectable
    }
}

/// A copy of a page that may be absent.
fn copy_page(page: &Option<SelectablePage>) -> (copy: Option<SelectablePage>)
    ensures
        page_view(copy) == page_view(*page),
{
    match page {
        Some(p) => Some(p.clone()),
        None => None,
    }
}

impl Clone for Selectable {
    fn clone(&self) -> (copy: Self)
        ensures
            copy@ == self@,
    {
        let copy = Selectable {
            types: self.types.clone(),
            sorts: self.sorts.clone(),
            prev_page: copy_page(&self.prev_page),
            next_page: copy_page(&self.next_page),
        };
        assert(copy@.types =~= self@.types);
        assert(copy@.sorts =~= self@.sorts);
        copy
    }
}

/// Whether two pages that may be absent are the same.
fn same_page(a: &Option<SelectablePage>, b: &Option<SelectablePage>) -> (same: bool)
    ensures
        same == (page_view(*a) == page_view(*b)),
{
    match (a, b) {
        (Some(x), Some(y)) => *x == *y,
        (None, None) => true,
        _ => false,
    }
}

impl PartialEq for Selectable {
    fn eq(&self, other: &Self) -> (same: bool) {
        let same_types = self.types == other.types;
        let same_sorts = self.sorts == other.sorts;
        proof {
            let a = types_view(self.types@);
            let b = types_view(other.types@);
            if same_types {
                assert(a =~= b);
            } else if a == b {
                assert(a.len() == b.len());
                assert forall|i: int| 0 <= i < self.types.len() implies self.types[i]@
                    == other.types[i]@ by {
                    assert(a[i] == b[i]);
                }
            }
            let c = sorts_view(self.sorts@);
            let d = sorts_view(other.sorts@);
            if same_sorts {
                assert(c =~= d);
            } else if c == d {
                assert(c.len() == d.len());
                assert forall|i: int| 0 <= i < self.sorts.len() implies self.sorts[i]@
                    == other.sorts[i]@ by {
                    assert(c[i] == d[i]);
                }
            }
        }
        same_types && same_sorts && same_page(&self.prev_page, &other.prev_page) && same_page(
            &self.next_page,
            &other.next_page,
        )
    }
}

impl PartialEqSpecImpl for Selectable {
    open spec fn obeys_eq_spec() -> bool {
        true
    }

    open spec fn eq_spec(&self, other: &Self) -> bool {
        self@ == other@
    }
}

impl Eq for Selectable {

}

/// The test that the filter puts every item to.
pub open spec fn taken_in<F: LibraryFilter>(notifications: Seq<NotificationsEntryView>) -> spec_fn(
    LibraryItemView,
) -> bool {
    |item: LibraryItemView| F::eligible(item, notifications)
}

/// Whether an item has the type that was asked for; every item has it where
/// none was.
pub open spec fn has_type(item: LibraryItemView, type_: Option<Seq<char>>) -> bool {
    type_ matches Some(tag) ==> item.type_ == tag
}

/// The test that an item passes to be shown: the filter takes it in, and it
/// has the type asked for.
pub open spec fn shown_in<F: LibraryFilter>(
    notifications: Seq<NotificationsEntryView>,
    type_: Option<Seq<char>>,
) -> spec_fn(LibraryItemView) -> bool {
    |item: LibraryItemView| F::eligible(item, notifications) && has_type(item, type_)
}

/// The items of `library` that the filter takes in, in the order of `library`.
pub open spec fn eligible_items<F: LibraryFilter>(
    library: Seq<LibraryItemView>,
    notifications: Seq<NotificationsEntryView>,
) -> Seq<LibraryItemView> {
    library.filter(taken_in::<F>(notifications))
}

/// The items of `library` that the filter takes in and that have the type
/// asked for, in the order of `library`.
pub open spec fn shown_items<F: LibraryFilter>(
    library: Seq<LibraryItemView>,
    notifications: Seq<NotificationsEntryView>,
    type_: Option<Seq<char>>,
) -> Seq<LibraryItemView> {
    library.filter(shown_in::<F>(notifications, type_))
}

/// The types of a sequence of items, in the same order.
pub open spec fn types_of(items: Seq<LibraryItemView>) -> Seq<Seq<char>> {
    items.map_values(|item: LibraryItemView| item.type_)
}

/// The types of the items of `library` that the filter takes in.
pub open spec fn eligible_types<F: LibraryFilter>(
    library: Seq<LibraryItemView>,
    notifications: Seq<NotificationsEntryView>,
) -> Set<Seq<char>> {
    types_of(eligible_items::<F>(library, notifications)).to_set()
}

/// The order in which types are offered: the reverse of the order that
/// `table` gives, so that of two types the one that `table` puts behind the
/// other is offered first.
pub open spec fn offered_before(table: Seq<Seq<char>>) -> spec_fn(Seq<char>, Seq<char>) -> bool {
    |a: Seq<char>, b: Seq<char>| priority_before(b, a, table)
}

/// Whether the first of two moments that may be absent is the later one; any
/// moment is later than none.
pub open spec fn watched_later(a: Option<i64>, b: Option<i64>) -> bool {
    match (a, b) {
        (Some(x), Some(y)) => x > y,
        (Some(_), None) => true,
        _ => false,
    }
}

/// Whether `sort` puts `a` before `b` by what it looks at: the last moment of
/// watching, later first; the name in lower case; the number of times
/// watched, greater first; or that number, smaller first.
pub open spec fn key_before(a: LibraryItemView, b: LibraryItemView, sort: Sort) -> bool {
    match sort {
        Sort::LastWatched => watched_later(a.state.last_watched, b.state.last_watched),
        Sort::Name => text_before(lowercase_of(a.name), lowercase_of(b.name)),
        Sort::Watched => a.state.times_watched > b.state.times_watched,
        Sort::NotWatched => a.state.times_watched < b.state.times_watched,
    }
}

/// Whether `a` is shown before `b`: `sort` puts it first, or `sort` does not
/// decide between the two and the identity of `a` stands before that of `b`.
/// So items that `sort` holds equal are shown in the order of their
/// identities, whatever the order in which the library holds them.
pub open spec fn item_before(a: LibraryItemView, b: LibraryItemView, sort: Sort) -> bool {
    key_before(a, b, sort) || (!key_before(b, a, sort) && text_before(a.id, b.id))
}

/// The order in which `sort` shows items.
pub open spec fn shown_before(sort: Sort) -> spec_fn(LibraryItemView, LibraryItemView) -> bool {
    |a: LibraryItemView, b: LibraryItemView| item_before(a, b, sort)
}

/// The first place of the page `page` in a sequence of items, counted from
/// zero.
pub open spec fn page_start(page: nat) -> int {
    (page - 1) * CATALOG_PAGE_SIZE
}

/// The page `page` of `items`: what stands from the start of the page up to
/// the start of the next, as far as `items` reaches.
pub open spec fn page_of(items: Seq<LibraryItemView>, page: nat) -> Seq<LibraryItemView> {
    if page_start(page) >= items.len() {
        Seq::empty()
    } else if page_start(page + 1) >= items.len() {
        items.subrange(page_start(page), items.len() as int)
    } else {
        items.subrange(page_start(page), page_start(page + 1))
    }
}

/// The order that is asked for; the default where nothing is selected.
pub open spec fn selected_sort(selected: Option<SelectedView>) -> Sort {
    match selected {
        Some(s) => s.request.sort,
        None => Sort::LastWatched,
    }
}

/// The type that is asked for; none where nothing is selected.
pub open spec fn selected_type(selected: Option<SelectedView>) -> Option<Seq<char>> {
    match selected {
        Some(s) => s.request.type_,
        None => None,
    }
}

/// The entry that offers the type `type_`: picking it keeps the order and
/// turns to the first page.
pub open spec fn type_entry(
    selected: Option<SelectedView>,
    type_: Option<Seq<char>>,
) -> SelectableTypeView {
    SelectableTypeView {
        type_,
        selected: selected matches Some(s) && s.request.type_ == type_,
        request: LibraryRequestView { type_, sort: selected_sort(selected), page: 1 },
    }
}

/// The entry that offers the order `sort`: picking it keeps the type and
/// turns to the first page.
pub open spec fn sort_entry(selected: Option<SelectedView>, sort: Sort) -> SelectableSortView {
    SelectableSortView {
        sort,
        selected: selected matches Some(s) && s.request.sort == sort,
        request: LibraryRequestView { type_: selected_type(selected), sort, page: 1 },
    }
}

/// The entries that offer types: first the one for all types, then one for
/// each type of `order`.
pub open spec fn type_entries(
    selected: Option<SelectedView>,
    order: Seq<Seq<char>>,
) -> Seq<SelectableTypeView> {
    seq![type_entry(selected, None)] + order.map_values(
        |tag: Seq<char>| type_entry(selected, Some(tag)),
    )
}

/// The entries that offer the orders of `sorts`, one for each.
pub open spec fn sort_entries_of(selected: Option<SelectedView>, sorts: Seq<Sort>) -> Seq<
    SelectableSortView,
> {
    sorts.map_values(|sort: Sort| sort_entry(selected, sort))
}

/// The entries that offer orders: one for each order there is.
pub open spec fn sort_entries(selected: Option<SelectedView>) -> Seq<SelectableSortView> {
    sort_entries_of(selected, Sort::all())
}

/// The page before the selected one, where there is a selection and its page
/// is not the first.
pub open spec fn prev_page_of(selected: Option<SelectedView>) -> Option<SelectablePageView> {
    match selected {
        Some(s) => if s.request.page > 1 {
            Some(
                SelectablePageView {
                    request: LibraryRequestView {
                        type_: s.request.type_,
                        sort: s.request.sort,
                        page: (s.request.page - 1) as nat,
                    },
                },
            )
        } else {
            None
        },
        None => None,
    }
}

/// The page after the selected one, where there is a selection and more than
/// `shown` items would be needed to fill the pages up to the selected one.
pub open spec fn next_page_of(selected: Option<SelectedView>, shown: nat) -> Option<
    SelectablePageView,
> {
    match selected {
        Some(s) => if shown > page_start(s.request.page + 1) {
            Some(
                SelectablePageView {
                    request: LibraryRequestView {
                        type_: s.request.type_,
                        sort: s.request.sort,
                        page: s.request.page + 1,
                    },
                },
            )
        } else {
            None
        },
        None => None,
    }
}

/// Everything that may be picked next, for a selection and the library that
/// it is made on. A type is offered only as long as the filter takes in an
/// item of it: where the last such item goes, the entry of the type goes too,
/// even while the type is selected, and then no entry is marked as selected.
pub open spec fn selectable_of<F: LibraryFilter>(
    selected: Option<SelectedView>,
    library: Seq<LibraryItemView>,
    notifications: Seq<NotificationsEntryView>,
    table: Seq<Seq<char>>,
) -> SelectableView {
    SelectableView {
        types: type_entries(
            selected,
            in_order(eligible_types::<F>(library, notifications), offered_before(table)),
        ),
        sorts: sort_entries(selected),
        prev_page: prev_page_of(selected),
        next_page: next_page_of(
            selected,
            shown_items::<F>(library, notifications, selected_type(selected)).len(),
        ),
    }
}

/// The page of items that a selection shows; no items where nothing is
/// selected.
pub open spec fn catalog_of<F: LibraryFilter>(
    selected: Option<SelectedView>,
    library: Seq<LibraryItemView>,
    notifications: Seq<NotificationsEntryView>,
) -> Seq<LibraryItemView> {
    match selected {
        Some(s) => page_of(
            in_order(
                shown_items::<F>(library, notifications, s.request.type_).to_set(),
                shown_before(s.request.sort),
            ),
            s.request.page,
        ),
        None => Seq::empty(),
    }
}

/// What is left of a sequence of texts when every text that stood earlier in
/// it already is taken out.
pub open spec fn first_occurrences(texts: Seq<Seq<char>>) -> Seq<Seq<char>>
    decreases texts.len(),
{
    if texts.len() == 0 {
        texts
    } else {
        let earlier = first_occurrences(texts.drop_last());
        if earlier.contains(texts.last()) {
            earlier
        } else {
            earlier.push(texts.last())
        }
    }
}

/// The first occurrences hold every text of the sequence, and none twice.
pub proof fn lemma_first_occurrences(texts: Seq<Seq<char>>)
    ensures
        first_occurrences(texts).no_duplicates(),
        first_occurrences(texts).to_set() == texts.to_set(),
    decreases texts.len(),
{
    let kept = first_occurrences(texts);
    if texts.len() == 0 {
        assert(kept.to_set() =~= texts.to_set());
    } else {
        let earlier = first_occurrences(texts.drop_last());
        lemma_first_occurrences(texts.drop_last());
        assert forall|t: Seq<char>| kept.to_set().contains(t) == texts.to_set().contains(t) by {
            if texts.contains(t) {
                let i = choose|i: int| 0 <= i < texts.len() && texts[i] == t;
                if i < texts.len() - 1 {
                    assert(texts.drop_last()[i] == t);
                    assert(texts.drop_last().to_set().contains(t));
                    assert(earlier.contains(t));
                    let j = choose|j: int| 0 <= j < earlier.len() && earlier[j] == t;
                    assert(kept[j] == t);
                } else if !earlier.contains(t) {
                    assert(kept[kept.len() - 1] == t);
                } else {
                    let j = choose|j: int| 0 <= j < earlier.len() && earlier[j] == t;
                    assert(kept[j] == t);
                }
            }
            if kept.contains(t) {
                let j = choose|j: int| 0 <= j < kept.len() && kept[j] == t;
                if j < earlier.len() {
                    assert(earlier[j] == t);
                    assert(earlier.to_set().contains(t));
                    assert(texts.drop_last().contains(t));
                    let i = choose|i: int|
                        0 <= i < texts.drop_last().len() && texts.drop_last()[i] == t;
                    assert(texts[i] == t);
                } else {
                    assert(texts[texts.len() - 1] == t);
                }
            }
        }
        assert(kept.to_set() =~= texts.to_set());
    }
}

/// Calls `Itertools::unique` on the strings of `types`, which keeps of each
/// text the first string that holds it and leaves the order of those as it is.
#[verifier::external_body]
fn unique_types(types: Vec<String>) -> (distinct: Vec<String>)
    ensures
        texts_view(distinct@) == first_occurrences(texts_view(types@)),
{
    types.into_iter().unique().collect()
}

/// Calls `Itertools::sorted_by` on the strings of `types`, with the order of
/// types by `priorities` as the comparison. The result holds the same strings,
/// and none of them stands behind one that it precedes in that order. (The
/// sort also keeps strings that compare as equal in the order in which they
/// came; nothing here rests on that.)
#[verifier::external_body]
fn sorted_by_priority(types: Vec<String>, priorities: &Vec<String>) -> (sorted: Vec<String>)
    ensures
        texts_view(sorted@).to_multiset() == texts_view(types@).to_multiset(),
        forall|i: int, j: int|
            0 <= i < j < sorted@.len() ==> !priority_before(
                #[trigger] texts_view(sorted@)[j],
                #[trigger] texts_view(sorted@)[i],
                texts_view(priorities@),
            ),
{
    types.into_iter().sorted_by(
        |a, b| compare_with_priorities(a.as_str(), b.as_str(), priorities),
    ).collect()
}

/// The plain values of a sequence of borrowed items, in the same order.
pub open spec fn refs_view(items: Seq<&LibraryItem>) -> Seq<LibraryItemView> {
    items.map_values(|item: &LibraryItem| item@)
}

/// Calls `Itertools::sorted_by` on `items`, with the order in which `sort`
/// shows items as the comparison. The result holds the same items, and none of
/// them stands behind one that it precedes in that order. (The sort also keeps
/// items that compare as equal in the order in which they came; nothing here
/// rests on that.)
#[verifier::external_body]
fn sorted_by_sort<'a>(items: Vec<&'a LibraryItem>, sort: &Sort) -> (sorted: Vec<&'a LibraryItem>)
    ensures
        refs_view(sorted@).to_multiset() == refs_view(items@).to_multiset(),
        forall|i: int, j: int|
            0 <= i < j < sorted@.len() ==> !item_before(
                #[trigger] refs_view(sorted@)[j],
                #[trigger] refs_view(sorted@)[i],
                *sort,
            ),
{
    items.into_iter().sorted_by(|a, b| compare_items(a, b, sort)).collect()
}

/// Calls `Boolinator::as_option`, which gives `Some(())` for `true` and `None`
/// for `false`.
#[verifier::external_body]
fn as_option(condition: bool) -> (option: Option<()>)
    ensures
        option is Some == condition,
{
    condition.as_option()
}

/// Whether the first of two moments that may be absent is the later one.
fn is_watched_later(a: Option<i64>, b: Option<i64>) -> (later: bool)
    ensures
        later == watched_later(a, b),
{
    match (a, b) {
        (Some(x), Some(y)) => x > y,
        (Some(_), None) => true,
        _ => false,
    }
}

/// Of two items at most one is shown before the other.
pub proof fn lemma_item_before_asymmetric(a: LibraryItemView, b: LibraryItemView, sort: Sort)
    ensures
        !(item_before(a, b, sort) && item_before(b, a, sort)),
{
    lemma_text_before_asymmetric(a.id, b.id);
    lemma_text_before_asymmetric(lowercase_of(a.name), lowercase_of(b.name));
}

/// Of two items with different identities one is shown before the other.
pub proof fn lemma_item_before_total(a: LibraryItemView, b: LibraryItemView, sort: Sort)
    ensures
        a.id != b.id ==> item_before(a, b, sort) || item_before(b, a, sort),
{
    lemma_text_before_total(a.id, b.id);
}

/// Compares two items by the order in which `sort` shows them: by what `sort`
/// looks at, and by their identities where that does not decide.
pub fn compare_items(a: &LibraryItem, b: &LibraryItem, sort: &Sort) -> (r: Ordering)
    ensures
        ordering_is(r, item_before(a@, b@, *sort), item_before(b@, a@, *sort)),
{
    let by_key = match sort {
        Sort::LastWatched => {
            if is_watched_later(a.state.last_watched, b.state.last_watched) {
                Ordering::Less
            } else if is_watched_later(b.state.last_watched, a.state.last_watched) {
                Ordering::Greater
            } else {
                Ordering::Equal
            }
        },
        Sort::Name => {
            let lower_a = to_lowercase(a.name.as_str());
            let lower_b = to_lowercase(b.name.as_str());
            compare_text(lower_a.as_str(), lower_b.as_str())
        },
        Sort::Watched => {
            if a.state.times_watched > b.state.times_watched {
                Ordering::Less
            } else if a.state.times_watched < b.state.times_watched {
                Ordering::Greater
            } else {
                Ordering::Equal
            }
        },
        Sort::NotWatched => {
            if a.state.times_watched < b.state.times_watched {
                Ordering::Less
            } else if a.state.times_watched > b.state.times_watched {
                Ordering::Greater
            } else {
                Ordering::Equal
            }
        },
    };
    assert(ordering_is(by_key, key_before(a@, b@, *sort), key_before(b@, a@, *sort)));
    match by_key {
        Ordering::Equal => compare_text(a.id.as_str(), b.id.as_str()),
        decided => decided,
    }
}

/// The order in which types are offered never holds both ways round.
pub proof fn lemma_offered_before_asymmetric(table: Seq<Seq<char>>)
    ensures
        asymmetric_on_all(offered_before(table)),
{
    assert forall|a: Seq<char>, b: Seq<char>|
        !(#[trigger] offered_before(table)(a, b) && offered_before(table)(b, a)) by {
        lemma_priority_asymmetric(a, b, table);
    }
}

/// The order in which items are shown never holds both ways round.
pub proof fn lemma_shown_before_asymmetric(sort: Sort)
    ensures
        asymmetric_on_all(shown_before(sort)),
{
    assert forall|a: LibraryItemView, b: LibraryItemView|
        !(#[trigger] shown_before(sort)(a, b) && shown_before(sort)(b, a)) by {
        lemma_item_before_asymmetric(a, b, sort);
    }
}

/// The types of the items that the filter takes in, as often as they occur and
/// in the order of the library.
fn eligible_type_tags<F: LibraryFilter>(
    library: &LibraryBucket,
    notifications: &NotificationsBucket,
) -> (tags: Vec<String>)
    ensures
        texts_view(tags@) == types_of(eligible_items::<F>(library@, notifications@)),
{
    let items = library.items();
    let mut tags: Vec<String> = Vec::new();
    let mut i: usize = 0;
    assert(library@.take(0) =~= Seq::empty());
    assert(eligible_items::<F>(library@.take(0), notifications@) =~= Seq::empty()) by {
        reveal(Seq::filter);
    }
    assert(texts_view(tags@) =~= types_of(Seq::empty()));
    while i < items.len()
        invariant
            i <= items.len(),
            items_view(items@) == library@,
            texts_view(tags@) == types_of(
                eligible_items::<F>(library@.take(i as int), notifications@),
            ),
        decreases items.len() - i,
    {
        let ghost before = eligible_items::<F>(library@.take(i as int), notifications@);
        proof {
            lemma_filter_step(library@, taken_in::<F>(notifications@), i as int);
        }
        if F::predicate(&items[i], notifications) {
            let tag = items[i].type_.clone();
            let ghost earlier = texts_view(tags@);
            tags.push(tag);
            assert(texts_view(tags@) =~= earlier.push(tag@));
            assert(types_of(before.push(library@[i as int])) =~= types_of(before).push(tag@));
        }
        i = i + 1;
    }
    assert(library@.take(i as int) =~= library@);
    tags
}

/// The types that are offered, each once, in the order in which they are
/// offered.
fn offered_types<F: LibraryFilter>(
    library: &LibraryBucket,
    notifications: &NotificationsBucket,
    priorities: &Vec<String>,
) -> (types: Vec<String>)
    ensures
        texts_view(types@) == in_order(
            eligible_types::<F>(library@, notifications@),
            offered_before(texts_view(priorities@)),
        ),
{
    let tags = eligible_type_tags::<F>(library, notifications);
    let distinct = unique_types(tags);
    let mut sorted = sorted_by_priority(distinct, priorities);
    let ghost table = texts_view(priorities@);
    let ghost ascending = texts_view(sorted@);
    let ghost rising = |a: Seq<char>, b: Seq<char>| priority_before(a, b, table);
    proof {
        lemma_first_occurrences(texts_view(tags@));
        assert forall|i: int, j: int|
            0 <= i < texts_view(distinct@).len() && 0 <= j < texts_view(distinct@).len() && i
                != j implies priority_before(
            #[trigger] texts_view(distinct@)[i],
            #[trigger] texts_view(distinct@)[j],
            table,
        ) || priority_before(texts_view(distinct@)[j], texts_view(distinct@)[i], table) by {
            lemma_priority_total(texts_view(distinct@)[i], texts_view(distinct@)[j], table);
        }
        lemma_sorted_rearrangement(ascending, texts_view(distinct@), rising);
    }
    let mut types: Vec<String> = Vec::new();
    assert(texts_view(types@) =~= Seq::empty());
    while sorted.len() > 0
        invariant
            sorted@.len() + types@.len() == ascending.len(),
            texts_view(sorted@) == ascending.take(sorted@.len() as int),
            forall|k: int|
                0 <= k < types@.len() ==> #[trigger] texts_view(types@)[k] == ascending[
                    ascending.len() - 1 - k],
            sorted_by(ascending, rising),
        decreases sorted.len(),
    {
        let ghost rest = texts_view(sorted@);
        let ghost earlier = texts_view(types@);
        let last = sorted.pop().unwrap();
        assert(last@ == rest[rest.len() - 1]);
        types.push(last);
        assert(texts_view(sorted@) =~= ascending.take(sorted@.len() as int));
        assert(texts_view(types@) =~= earlier.push(last@));
    }
    proof {
        let offered = texts_view(types@);
        assert forall|i: int, j: int| 0 <= i < j < offered.len() implies offered_before(table)(
            offered[i],
            offered[j],
        ) by {
            assert(rising(
                ascending[ascending.len() - 1 - j],
                ascending[ascending.len() - 1 - i],
            ));
        }
        assert forall|t: Seq<char>| offered.to_set().contains(t) == ascending.to_set().contains(
            t,
        ) by {
            if offered.contains(t) {
                let k = choose|k: int| 0 <= k < offered.len() && offered[k] == t;
                assert(ascending[ascending.len() - 1 - k] == t);
            }
            if ascending.contains(t) {
                let k = choose|k: int| 0 <= k < ascending.len() && ascending[k] == t;
                assert(offered[ascending.len() - 1 - k] == t);
            }
        }
        assert(offered.to_set() =~= eligible_types::<F>(library@, notifications@));
        lemma_offered_before_asymmetric(table);
        lemma_in_order_is(
            offered,
            eligible_types::<F>(library@, notifications@),
            offered_before(table),
        );
    }
    types
}

/// The items that are shown, in the order of the library.
fn shown_refs<'a, F: LibraryFilter>(
    library: &'a LibraryBucket,
    notifications: &NotificationsBucket,
    type_: &Option<String>,
) -> (shown: Vec<&'a LibraryItem>)
    ensures
        refs_view(shown@) == shown_items::<F>(library@, notifications@, type_view(*type_)),
        unique_ids(library@),
{
    let items = library.items();
    let mut shown: Vec<&'a LibraryItem> = Vec::new();
    let mut i: usize = 0;
    assert(library@.take(0) =~= Seq::empty());
    assert(shown_items::<F>(library@.take(0), notifications@, type_view(*type_))
        =~= Seq::empty()) by {
        reveal(Seq::filter);
    }
    assert(refs_view(shown@) =~= Seq::empty());
    while i < items.len()
        invariant
            i <= items.len(),
            items_view(items@) == library@,
            refs_view(shown@) == shown_items::<F>(
                library@.take(i as int),
                notifications@,
                type_view(*type_),
            ),
        decreases items.len() - i,
    {
        proof {
            lemma_filter_step(
                library@,
                shown_in::<F>(notifications@, type_view(*type_)),
                i as int,
            );
        }
        let item = &items[i];
        let of_type = match type_ {
            Some(tag) => item.type_ == *tag,
            None => true,
        };
        if F::predicate(item, notifications) && of_type {
            let ghost earlier = refs_view(shown@);
            shown.push(item);
            assert(refs_view(shown@) =~= earlier.push(item@));
        }
        i = i + 1;
    }
    assert(library@.take(i as int) =~= library@);
    shown
}

/// The request for the items of `type_` in the order `sort`, turned to the
/// first page.
fn first_page_of(type_: Option<String>, sort: Sort) -> (request: LibraryRequest)
    ensures
        request@ == (LibraryRequestView { type_: type_view(type_), sort, page: 1 }),
{
    LibraryRequest { type_, sort, page: LibraryRequestPage::default() }
}

/// Works out what may be picked next, for `selected` and the library as it
/// is, and puts it in the place of `*selectable` unless it is what stands
/// there already.
pub fn selectable_update<F: LibraryFilter>(
    selectable: &mut Selectable,
    selected: &Option<Selected>,
    library: &LibraryBucket,
    notifications: &NotificationsBucket,
    priorities: &Vec<String>,
) -> (effects: Effects)
    ensures
        final(selectable)@ == selectable_of::<F>(
            selected_view(*selected),
            library@,
            notifications@,
            texts_view(priorities@),
        ),
        effects@ == if old(selectable)@ == final(selectable)@ {
            EffectsView::none().unchanged()
        } else {
            EffectsView::none()
        },
        !effects.has_changed ==> *final(selectable) == *old(selectable),
{
    let ghost chosen = selected_view(*selected);
    let sort = match selected {
        Some(selected) => selected.request.sort,
        None => Sort::default(),
    };
    let offered = offered_types::<F>(library, notifications, priorities);
    let ghost order = texts_view(offered@);
    let mut selectable_types: Vec<SelectableType> = Vec::new();
    selectable_types.push(
        SelectableType {
            type_: None,
            request: first_page_of(None, sort),
            selected: match selected {
                Some(selected) => selected.request.type_.is_none(),
                None => false,
            },
        },
    );
    assert(types_view(selectable_types@) =~= type_entries(chosen, order.take(0)));
    let mut k: usize = 0;
    while k < offered.len()
        invariant
            k <= offered.len(),
            order == texts_view(offered@),
            chosen == selected_view(*selected),
            sort == selected_sort(chosen),
            types_view(selectable_types@) == type_entries(chosen, order.take(k as int)),
        decreases offered.len() - k,
    {
        let ghost earlier = types_view(selectable_types@);
        let entry = SelectableType {
            type_: Some(offered[k].clone()),
            request: first_page_of(Some(offered[k].clone()), sort),
            selected: match selected {
                Some(selected) => match &selected.request.type_ {
                    Some(tag) => *tag == offered[k],
                    None => false,
                },
                None => false,
            },
        };
        assert(entry@ == type_entry(chosen, Some(order[k as int])));
        selectable_types.push(entry);
        assert(types_view(selectable_types@) =~= earlier.push(entry@));
        assert(type_entries(chosen, order.take(k + 1)) =~= type_entries(
            chosen,
            order.take(k as int),
        ).push(type_entry(chosen, Some(order[k as int]))));
        k = k + 1;
    }
    assert(order.take(k as int) =~= order);
    let sorts = Sort::iter();
    let mut selectable_sorts: Vec<SelectableSort> = Vec::new();
    let mut n: usize = 0;
    assert(sorts_view(selectable_sorts@) =~= sort_entries_of(chosen, Sort::all().take(0)));
    while n < sorts.len()
        invariant
            n <= sorts.len(),
            sorts@ == Sort::all(),
            chosen == selected_view(*selected),
            sorts_view(selectable_sorts@) == sort_entries_of(chosen, Sort::all().take(n as int)),
        decreases sorts.len() - n,
    {
        let ghost earlier = sorts_view(selectable_sorts@);
        let entry = SelectableSort {
            sort: sorts[n],
            request: first_page_of(
                match selected {
                    Some(selected) => copy_type(&selected.request.type_),
                    None => None,
                },
                sorts[n],
            ),
            selected: match selected {
                Some(selected) => selected.request.sort == sorts[n],
                None => false,
            },
        };
        assert(entry@ == sort_entry(chosen, sorts@[n as int]));
        selectable_sorts.push(entry);
        assert(sorts_view(selectable_sorts@) =~= earlier.push(entry@));
        assert(sorts_view(selectable_sorts@) =~= sort_entries_of(chosen, Sort::all().take(n + 1)));
        n = n + 1;
    }
    assert(Sort::all().take(n as int) =~= Sort::all());
    let (prev_page, next_page) = match selected {
        Some(selected) => {
            let page = selected.request.page.get();
            let prev_page = match as_option(page > 1) {
                Some(_) => Some(
                    SelectablePage {
                        request: LibraryRequest {
                            type_: copy_type(&selected.request.type_),
                            sort: selected.request.sort,
                            page: LibraryRequestPage(page - 1),
                        },
                    },
                ),
                None => None,
            };
            let shown = shown_refs::<F>(library, notifications, &selected.request.type_);
            let count = shown.len();
            let more = match page.checked_mul(CATALOG_PAGE_SIZE) {
                Some(filled) => count > filled,
                None => false,
            };
            assert(page_start((page + 1) as nat) == page * CATALOG_PAGE_SIZE) by (nonlinear_arith)
                requires
                    page_start((page + 1) as nat) == ((page + 1) as nat - 1) * CATALOG_PAGE_SIZE,
            ;
            assert(page * CATALOG_PAGE_SIZE >= page) by (nonlinear_arith)
                requires
                    CATALOG_PAGE_SIZE >= 1,
                    page >= 0,
            ;
            assert(refs_view(shown@).len() == shown@.len());
            assert(more == (shown@.len() > page_start((page + 1) as nat)));
            let next_page = if more {
                Some(
                    SelectablePage {
                        request: LibraryRequest {
                            type_: copy_type(&selected.request.type_),
                            sort: selected.request.sort,
                            page: LibraryRequestPage(page + 1),
                        },
                    },
                )
            } else {
                None
            };
            (prev_page, next_page)
        },
        None => (None, None),
    };
    let next_selectable = Selectable {
        types: selectable_types,
        sorts: selectable_sorts,
        prev_page,
        next_page,
    };
    let ghost wanted = selectable_of::<F>(
        chosen,
        library@,
        notifications@,
        texts_view(priorities@),
    );
    assert(next_selectable@.types == wanted.types);
    assert(next_selectable@.sorts == wanted.sorts);
    assert(next_selectable@.prev_page == wanted.prev_page);
    assert(next_selectable@.next_page == wanted.next_page);
    eq_update(selectable, next_selectable)
}

/// The items that are shown, in the order in which `sort` shows them.
fn shown_in_order<'a, F: LibraryFilter>(
    library: &'a LibraryBucket,
    notifications: &NotificationsBucket,
    type_: &Option<String>,
    sort: &Sort,
) -> (sorted: Vec<&'a LibraryItem>)
    ensures
        refs_view(sorted@) == in_order(
            shown_items::<F>(library@, notifications@, type_view(*type_)).to_set(),
            shown_before(*sort),
        ),
{
    let shown = shown_refs::<F>(library, notifications, type_);
    let sorted = sorted_by_sort(shown, sort);
    proof {
        let found = refs_view(shown@);
        let ranked = refs_view(sorted@);
        lemma_filter_unique_ids(library@, shown_in::<F>(notifications@, type_view(*type_)));
        assert forall|i: int, j: int|
            0 <= i < found.len() && 0 <= j < found.len() && i != j implies shown_before(*sort)(
            #[trigger] found[i],
            #[trigger] found[j],
        ) || shown_before(*sort)(found[j], found[i]) by {
            if i < j {
                assert(found[i].id != found[j].id);
            } else {
                assert(found[j].id != found[i].id);
            }
            lemma_item_before_total(found[i], found[j], *sort);
        }
        lemma_sorted_rearrangement(ranked, found, shown_before(*sort));
        lemma_shown_before_asymmetric(*sort);
        lemma_in_order_is(ranked, found.to_set(), shown_before(*sort));
    }
    sorted
}

/// Works out the page of items that `selected` shows of the library as it is,
/// and puts it in the place of `*catalog` unless it is what stands there
/// already.
pub fn catalog_update<F: LibraryFilter>(
    catalog: &mut Vec<LibraryItem>,
    selected: &Option<Selected>,
    library: &LibraryBucket,
    notifications: &NotificationsBucket,
) -> (effects: Effects)
    ensures
        items_view(final(catalog)@) == catalog_of::<F>(
            selected_view(*selected),
            library@,
            notifications@,
        ),
        effects@ == if items_view(old(catalog)@) == items_view(final(catalog)@) {
            EffectsView::none().unchanged()
        } else {
            EffectsView::none()
        },
        !effects.has_changed ==> *final(catalog) == *old(catalog),
{
    let mut next_catalog: Vec<LibraryItem> = Vec::new();
    assert(items_view(next_catalog@) =~= Seq::empty());
    match selected {
        Some(selected) => {
            let sorted = shown_in_order::<F>(
                library,
                notifications,
                &selected.request.type_,
                &selected.request.sort,
            );
            let ghost ranked = refs_view(sorted@);
            let page = selected.request.page.get();
            let count = sorted.len();
            assert(page_start(page as nat) == (page - 1) * CATALOG_PAGE_SIZE);
            assert(page_start((page + 1) as nat) == page_start(page as nat) + CATALOG_PAGE_SIZE)
                by (nonlinear_arith)
                requires
                    page_start(page as nat) == (page - 1) * CATALOG_PAGE_SIZE,
                    page_start((page + 1) as nat) == ((page + 1) as nat - 1) * CATALOG_PAGE_SIZE,
            ;
            match (page - 1).checked_mul(CATALOG_PAGE_SIZE) {
                Some(start) => {
                    if start < count {
                        let end = if count - start > CATALOG_PAGE_SIZE {
                            start + CATALOG_PAGE_SIZE
                        } else {
                            count
                        };
                        let mut i: usize = start;
                        assert(items_view(next_catalog@) =~= ranked.subrange(
                            start as int,
                            i as int,
                        ));
                        while i < end
                            invariant
                                start <= i <= end <= sorted.len(),
                                ranked == refs_view(sorted@),
                                items_view(next_catalog@) == ranked.subrange(
                                    start as int,
                                    i as int,
                                ),
                            decreases end - i,
                        {
                            let ghost earlier = items_view(next_catalog@);
                            let item = sorted[i].clone();
                            next_catalog.push(item);
                            assert(items_view(next_catalog@) =~= earlier.push(item@));
                            assert(ranked.subrange(start as int, i + 1) =~= ranked.subrange(
                                start as int,
                                i as int,
                            ).push(ranked[i as int]));
                            i = i + 1;
                        }
                    }
                },
                None => {},
            }
        },
        None => {},
    }
    let ghost wanted = items_view(next_catalog@);
    assert(wanted == catalog_of::<F>(selected_view(*selected), library@, notifications@));
    proof {
        let before = items_view(catalog@);
        if PartialEqSpec::eq_spec(&*catalog, &next_catalog) {
            assert(before =~= wanted);
        } else if before == wanted {
            assert(before.len() == wanted.len());
            assert forall|i: int| 0 <= i < catalog.len() implies catalog[i]@
                == next_catalog[i]@ by {
                assert(before[i] == wanted[i]);
            }
        }
    }
    eq_update(catalog, next_catalog)
}

/// A view of the library through the filter `F`: the selection, what may be
/// picked next, and the page of items that the selection shows.
#[derive(Debug)]
pub struct LibraryWithFilters<F> {
    pub selected: Option<Selected>,
    pub selectable: Selectable,
    pub catalog: Vec<LibraryItem>,
    pub filter: PhantomData<F>,
}

/// What a `LibraryWithFilters` holds, as plain values.
pub struct LibraryWithFiltersView {
    pub selected: Option<SelectedView>,
    pub selectable: SelectableView,
    pub catalog: Seq<LibraryItemView>,
}

impl<F> View for LibraryWithFilters<F> {
    type V = LibraryWithFiltersView;

    open spec fn view(&self) -> LibraryWithFiltersView {
        LibraryWithFiltersView {
            selected: selected_view(self.selected),
            selectable: self.selectable@,
            catalog: items_view(self.catalog@),
        }
    }
}

impl<F> Clone for LibraryWithFilters<F> {
    fn clone(&self) -> (copy: Self)
        ensures
            copy@ == self@,
    {
        let copy = LibraryWithFilters {
            selected: match &self.selected {
                Some(selected) => Some(selected.clone()),
                None => None,
            },
            selectable: self.selectable.clone(),
            catalog: self.catalog.clone(),
            filter: PhantomData,
        };
        assert(copy@.catalog =~= self@.catalog);
        copy
    }
}

/// The view that shows `selected` of the library as `ctx` holds it.
pub open spec fn view_of<F: LibraryFilter>(
    selected: Option<SelectedView>,
    ctx: CtxView,
) -> LibraryWithFiltersView {
    LibraryWithFiltersView {
        selected,
        selectable: selectable_of::<F>(
            selected,
            ctx.library,
            ctx.notifications,
            ctx.type_priorities,
        ),
        catalog: catalog_of::<F>(selected, ctx.library, ctx.notifications),
    }
}

/// Whether a view works itself out anew on `msg`: on a load of the library,
/// on an unload, and when the library has changed.
pub open spec fn is_recognized(msg: MsgView) -> bool {
    match msg {
        MsgView::Action(ActionView::Load(ActionLoadView::LibraryWithFilters(_))) => true,
        MsgView::Action(ActionView::Unload) => true,
        MsgView::Internal(InternalView::LibraryChanged) => true,
        _ => false,
    }
}

/// The selection after `msg`: a load selects what it asks for, an unload
/// selects nothing, and every other message leaves the selection as it is.
pub open spec fn selection_after(selected: Option<SelectedView>, msg: MsgView) -> Option<
    SelectedView,
> {
    match msg {
        MsgView::Action(ActionView::Load(ActionLoadView::LibraryWithFilters(asked))) => Some(
            asked,
        ),
        MsgView::Action(ActionView::Unload) => None,
        _ => selected,
    }
}

/// What `msg` makes of a view: on a message that it recognizes, the view of
/// the selection after the message; on every other message, the view as it
/// is.
pub open spec fn view_after<F: LibraryFilter>(
    state: LibraryWithFiltersView,
    msg: MsgView,
    ctx: CtxView,
) -> LibraryWithFiltersView {
    if is_recognized(msg) {
        view_of::<F>(selection_after(state.selected, msg), ctx)
    } else {
        state
    }
}

/// What a view hands back for `msg`: never work, and a change exactly where
/// the view is no longer what it was.
pub open spec fn view_effects<F: LibraryFilter>(
    state: LibraryWithFiltersView,
    msg: MsgView,
    ctx: CtxView,
) -> EffectsView {
    if view_after::<F>(state, msg, ctx) == state {
        EffectsView::none().unchanged()
    } else {
        EffectsView::none()
    }
}

impl<F: LibraryFilter> LibraryWithFilters<F> {
    /// A view that has nothing selected, with what may be picked of the
    /// library as it is. The outcome says that nothing changed.
    pub fn new(
        library: &LibraryBucket,
        notifications: &NotificationsBucket,
        type_priorities: &Vec<String>,
    ) -> (made: (Self, Effects))
        ensures
            made.0@ == (LibraryWithFiltersView {
                selected: None,
                selectable: selectable_of::<F>(
                    None,
                    library@,
                    notifications@,
                    texts_view(type_priorities@),
                ),
                catalog: Seq::empty(),
            }),
            made.1@ == EffectsView::none().unchanged(),
    {
        let selected = None;
        let mut selectable = Selectable::default();
        let effects = selectable_update::<F>(
            &mut selectable,
            &selected,
            library,
            notifications,
            type_priorities,
        );
        let model = LibraryWithFilters {
            selectable,
            selected,
            catalog: Vec::new(),
            filter: PhantomData,
        };
        assert(items_view(model.catalog@) =~= Seq::empty());
        (model, effects.unchanged())
    }
}

impl<F: LibraryFilter> UpdateWithCtx for LibraryWithFilters<F> {
    open spec fn next(
        state: LibraryWithFiltersView,
        msg: MsgView,
        ctx: CtxView,
    ) -> LibraryWithFiltersView {
        view_after::<F>(state, msg, ctx)
    }

    open spec fn emitted(
        state: LibraryWithFiltersView,
        msg: MsgView,
        ctx: CtxView,
    ) -> EffectsView {
        view_effects::<F>(state, msg, ctx)
    }

    /// Takes `msg`. Each part of the view that comes out as it went in is
    /// left untouched: the value that stood there stands there still.
    fn update(&mut self, msg: &Msg, ctx: &Ctx) -> (effects: Effects)
        ensures
            !effects.has_changed ==> *final(self) == *old(self),
            final(self)@.selected == old(self)@.selected ==> final(self).selected == old(
                self,
            ).selected,
            final(self)@.selectable == old(self)@.selectable ==> final(self).selectable == old(
                self,
            ).selectable,
            final(self)@.catalog == old(self)@.catalog ==> final(self).catalog == old(
                self,
            ).catalog,
    {
        match msg {
            Msg::Action(Action::Load(ActionLoad::LibraryWithFilters(selected))) => {
                let selected_effects = eq_update(&mut self.selected, Some(selected.clone()));
                let selectable_effects = selectable_update::<F>(
                    &mut self.selectable,
                    &self.selected,
                    &ctx.library,
                    &ctx.notifications,
                    &ctx.type_priorities,
                );
                let catalog_effects = catalog_update::<F>(
                    &mut self.catalog,
                    &self.selected,
                    &ctx.library,
                    &ctx.notifications,
                );
                selected_effects.join(selectable_effects).join(catalog_effects)
            },
            Msg::Action(Action::Unload) => {
                let selected_effects = eq_update(&mut self.selected, None);
                let selectable_effects = selectable_update::<F>(
                    &mut self.selectable,
                    &self.selected,
                    &ctx.library,
                    &ctx.notifications,
                    &ctx.type_priorities,
                );
                let catalog_effects = catalog_update::<F>(
                    &mut self.catalog,
                    &self.selected,
                    &ctx.library,
                    &ctx.notifications,
                );
                selected_effects.join(selectable_effects).join(catalog_effects)
            },
            Msg::Internal(Internal::LibraryChanged) => {
                let selectable_effects = selectable_update::<F>(
                    &mut self.selectable,
                    &self.selected,
                    &ctx.library,
                    &ctx.notifications,
                    &ctx.type_priorities,
                );
                let catalog_effects = catalog_update::<F>(
                    &mut self.catalog,
                    &self.selected,
                    &ctx.library,
                    &ctx.notifications,
                );
                selectable_effects.join(catalog_effects)
            },
            _ => Effects::none().unchanged(),
        }
    }
}

} // verus!
