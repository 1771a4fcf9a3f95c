//! The items of a personal media library and the collection that holds them.

use vstd::prelude::*;
use vstd::std_specs::cmp::PartialEqSpecImpl;

verus! {

/// How far the user has come with one item.
#[derive(Clone, Copy, Debug, PartialEq, Eq, Structural)]
pub struct LibraryItemState {
    /// When the item was last watched, if ever, in milliseconds of Unix time.
    pub last_watched: Option<i64>,
    /// The position at which watching stopped; zero when nothing is in progress.
    pub time_offset: u64,
    /// How many times the item has been watched to its end.
    pub times_watched: u32,
}

/// One item of the library.
#[derive(Debug)]
pub struct LibraryItem {
    pub id: String,
    pub type_: String,
    pub name: String,
    pub removed: bool,
    pub state: LibraryItemState,
}

/// What a `LibraryItem` holds, as plain values.
pub struct LibraryItemView {
    pub id: Seq<char>,
    pub type_: Seq<char>,
    pub name: Seq<char>,
    pub removed: bool,
    pub state: LibraryItemState,
}

impl View for LibraryItem {
    type V = LibraryItemView;

    open spec fn view(&self) -> LibraryItemView {
        LibraryItemView {
            id: self.id@,
            type_: self.type_@,
            name: self.name@,
            removed: self.removed,
            state: self.state,
        }
    }
}

impl LibraryItemView {
    /// Whether watching of the item has begun and not ended.
    pub open spec fn is_in_continue_watching(self) -> bool {
        self.state.time_offset > 0
    }
}

impl LibraryItem {
    /// Whether watching of the item has begun and not ended.
    pub fn is_in_continue_watching(&self) -> (r: bool)
        ensures
            r == self@.is_in_continue_watching(),
    {
        self.state.time_offset > 0
    }
}

impl Clone for LibraryItem {
    fn clone(&self) -> (r: Self)
        ensures
            r@ == self@,
    {
        LibraryItem {
            id: self.id.clone(),
            type_: self.type_.clone(),
            name: self.name.clone(),
            removed: self.removed,
            state: self.state,
        }
    }
}

impl PartialEq for LibraryItem {
    fn eq(&self, other: &Self) -> (r: bool) {
        self.id == other.id && self.type_ == other.type_ && self.name == other.name
            && self.removed == other.removed && self.state == other.state
    }
}

impl PartialEqSpecImpl for LibraryItem {
    open spec fn obeys_eq_spec() -> bool {
        true
    }

    open spec fn eq_spec(&self, other: &Self) -> bool {
        self@ == other@
    }
}

impl Eq for LibraryItem {

}

/// The plain values of a sequence of items, in the same order.
pub open spec fn items_view(items: Seq<LibraryItem>) -> Seq<LibraryItemView> {
    items.map_values(|item: LibraryItem| item@)
}

/// Whether no two items of the sequence share an identity.
pub open spec fn unique_ids(items: Seq<LibraryItemView>) -> bool {
    forall|i: int, j: int| 0 <= i < j < items.len() ==> items[i].id != items[j].id
}

/// What a test keeps of items with identities of their own has identities of
/// its own, and holds no item twice.
pub proof fn lemma_filter_unique_ids(
    items: Seq<LibraryItemView>,
    pred: spec_fn(LibraryItemView) -> bool,
)
    requires
        unique_ids(items),
    ensures
        unique_ids(items.filter(pred)),
        items.filter(pred).no_duplicates(),
    decreases items.len(),
{
    reveal(Seq::filter);
    if items.len() > 0 {
        let rest = items.drop_last();
        assert forall|i: int, j: int| 0 <= i < j < rest.len() implies rest[i].id
            != rest[j].id by {
            assert(items[i].id != items[j].id);
        }
        lemma_filter_unique_ids(rest, pred);
        let kept = rest.filter(pred);
        if pred(items.last()) {
            assert forall|i: int| 0 <= i < kept.len() implies kept[i].id != items.last().id by {
                assert(kept.contains(kept[i]));
                rest.lemma_filter_contains_rev(pred, kept[i]);
                let k = choose|k: int| 0 <= k < rest.len() && rest[k] == kept[i];
                assert(items[k].id != items[items.len() - 1].id);
            }
        }
    }
    let all = items.filter(pred);
    assert forall|i: int, j: int| 0 <= i < all.len() && 0 <= j < all.len() && i != j implies all[i]
        != all[j] by {
        if i < j {
            assert(all[i].id != all[j].id);
        } else {
            assert(all[j].id != all[i].id);
        }
    }
}

/// Whether some item of the sequence has the identity `id`.
pub open spec fn has_id(items: Seq<LibraryItemView>, id: Seq<char>) -> bool {
    exists|i: int| 0 <= i < items.len() && #[trigger] items[i].id == id
}

/// The place of the item with the identity `id`, where there is one.
pub open spec fn position_of(items: Seq<LibraryItemView>, id: Seq<char>) -> int {
    choose|i: int| 0 <= i < items.len() && #[trigger] items[i].id == id
}

/// The items after `item` has been put among them: in the place of the one with
/// its identity, or at the end where none has it.
pub open spec fn with_item(items: Seq<LibraryItemView>, item: LibraryItemView) -> Seq<
    LibraryItemView,
> {
    if has_id(items, item.id) {
        items.update(position_of(items, item.id), item)
    } else {
        items.push(item)
    }
}

/// The items of a library, each under its own identity. The order in which
/// they are held means nothing.
#[derive(Debug)]
pub struct LibraryBucket {
    items: Vec<LibraryItem>,
}

impl View for LibraryBucket {
    type V = Seq<LibraryItemView>;

    closed spec fn view(&self) -> Seq<LibraryItemView> {
        items_view(self.items@)
    }
}

impl LibraryBucket {
    #[verifier::type_invariant]
    spec fn well_formed(self) -> bool {
        unique_ids(items_view(self.items@))
    }

    /// A library without items.
    pub fn new() -> (bucket: LibraryBucket)
        ensures
            bucket@ == Seq::<LibraryItemView>::empty(),
    {
        let bucket = LibraryBucket { items: Vec::new() };
        assert(items_view(bucket.items@) =~= Seq::<LibraryItemView>::empty());
        bucket
    }

    /// The items, no two of them with the same identity.
    pub fn items(&self) -> (items: &Vec<LibraryItem>)
        ensures
            items_view(items@) == self@,
            unique_ids(self@),
    {
        proof {
            use_type_invariant(self);
        }
        &self.items
    }

    /// The number of items.
    pub fn len(&self) -> (n: usize)
        ensures
            n == self@.len(),
    {
        self.items.len()
    }

    /// The place of the item with the identity `id`, if there is one.
    fn find(&self, id: &String) -> (place: Option<usize>)
        ensures
            place is Some == has_id(self@, id@),
            place matches Some(k) ==> k < self@.len() && self@[k as int].id == id@ && k
                == position_of(self@, id@),
    {
        proof {
            use_type_invariant(self);
        }
        let mut k: usize = 0;
        while k < self.items.len()
            invariant
                k <= self.items.len(),
                unique_ids(items_view(self.items@)),
                forall|i: int| 0 <= i < k ==> (#[trigger] items_view(self.items@)[i]).id != id@,
            decreases self.items.len() - k,
        {
            if self.items[k].id == *id {
                assert(items_view(self.items@)[k as int].id == id@);
                return Some(k);
            }
            k = k + 1;
        }
        None
    }

    /// The item with the identity `id`, if the library holds one.
    pub fn get(&self, id: &String) -> (found: Option<&LibraryItem>)
        ensures
            found is Some == has_id(self@, id@),
            found matches Some(item) ==> item@ == self@[position_of(self@, id@)],
    {
        match self.find(id) {
            Some(k) => Some(&self.items[k]),
            None => None,
        }
    }

    /// Puts `item` into the library, in the place of the item that had its
    /// identity, if there was one. Says whether the library now differs from
    /// what it was.
    pub fn insert(&mut self, item: LibraryItem) -> (changed: bool)
        ensures
            final(self)@ == with_item(old(self)@, item@),
            changed == (final(self)@ != old(self)@),
    {
        proof {
            use_type_invariant(&*self);
        }
        let place = self.find(&item.id);
        let ghost before = self@;
        let mut taken = LibraryBucket { items: Vec::new() };
        std::mem::swap(self, &mut taken);
        let mut items = taken.items;
        let changed = match place {
            Some(k) => {
                let changed = !(items[k] == item);
                items.set(k, item);
                assert(items_view(items@) =~= before.update(k as int, item@));
                proof {
                    if !changed {
                        assert(before.update(k as int, item@) =~= before);
                    } else {
                        assert(before.update(k as int, item@)[k as int] != before[k as int]);
                    }
                }
                changed
            },
            None => {
                items.push(item);
                assert(items_view(items@) =~= before.push(item@));
                true
            },
        };
        *self = LibraryBucket { items };
        changed
    }
}

} // verus!
