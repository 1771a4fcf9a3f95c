//! The notifications that wait for the user, kept under the identity of the
//! library item that each belongs to.

use vstd::prelude::*;

verus! {

/// The markers that wait under one identity.
#[derive(Debug)]
pub struct NotificationsEntry {
    pub id: String,
    pub markers: Vec<String>,
}

/// What a `NotificationsEntry` holds, as plain values.
pub struct NotificationsEntryView {
    pub id: Seq<char>,
    pub markers: Seq<Seq<char>>,
}

impl View for NotificationsEntry {
    type V = NotificationsEntryView;

    open spec fn view(&self) -> NotificationsEntryView {
        NotificationsEntryView {
            id: self.id@,
            markers: self.markers@.map_values(|marker: String| marker@),
        }
    }
}

/// The plain values of a sequence of entries, in the same order.
pub open spec fn entries_view(entries: Seq<NotificationsEntry>) -> Seq<NotificationsEntryView> {
    entries.map_values(|entry: NotificationsEntry| entry@)
}

/// Whether no two entries stand under the same identity.
pub open spec fn unique_entries(entries: Seq<NotificationsEntryView>) -> bool {
    forall|i: int, j: int| 0 <= i < j < entries.len() ==> entries[i].id != entries[j].id
}

/// Whether an entry stands under the identity `id`.
pub open spec fn has_entry(entries: Seq<NotificationsEntryView>, id: Seq<char>) -> bool {
    exists|i: int| 0 <= i < entries.len() && #[trigger] entries[i].id == id
}

/// The place of the entry under the identity `id`, where there is one.
pub open spec fn entry_position(entries: Seq<NotificationsEntryView>, id: Seq<char>) -> int {
    choose|i: int| 0 <= i < entries.len() && #[trigger] entries[i].id == id
}

/// Whether at least one marker waits under the identity `id`.
pub open spec fn has_pending(entries: Seq<NotificationsEntryView>, id: Seq<char>) -> bool {
    has_entry(entries, id) && entries[entry_position(entries, id)].markers.len() > 0
}

/// The entries after `entry` has been put among them: in the place of the one
/// under its identity, or at the end where none stands under it.
pub open spec fn with_entry(
    entries: Seq<NotificationsEntryView>,
    entry: NotificationsEntryView,
) -> Seq<NotificationsEntryView> {
    if has_entry(entries, entry.id) {
        entries.update(entry_position(entries, entry.id), entry)
    } else {
        entries.push(entry)
    }
}

/// The pending notifications, at most one entry under each identity.
#[derive(Debug)]
pub struct NotificationsBucket {
    entries: Vec<NotificationsEntry>,
}

impl View for NotificationsBucket {
    type V = Seq<NotificationsEntryView>;

    closed spec fn view(&self) -> Seq<NotificationsEntryView> {
        entries_view(self.entries@)
    }
}

impl NotificationsBucket {
    #[verifier::type_invariant]
    spec fn well_formed(self) -> bool {
        unique_entries(entries_view(self.entries@))
    }

    /// No notifications at all.
    pub fn new() -> (bucket: NotificationsBucket)
        ensures
            bucket@ == Seq::<NotificationsEntryView>::empty(),
    {
        let bucket = NotificationsBucket { entries: Vec::new() };
        assert(entries_view(bucket.entries@) =~= Seq::<NotificationsEntryView>::empty());
        bucket
    }

    /// The place of the entry under the identity `id`, if there is one.
    fn find(&self, id: &String) -> (place: Option<usize>)
        ensures
            place is Some == has_entry(self@, id@),
            place matches Some(k) ==> k < self.entries@.len() && self@[k as int].id == id@ && k
                == entry_position(self@, id@),
    {
        proof {
            use_type_invariant(self);
        }
        let mut k: usize = 0;
        while k < self.entries.len()
            invariant
                k <= self.entries.len(),
                unique_entries(entries_view(self.entries@)),
                forall|i: int|
                    0 <= i < k ==> (#[trigger] entries_view(self.entries@)[i]).id != id@,
            decreases self.entries.len() - k,
        {
            if self.entries[k].id == *id {
                assert(entries_view(self.entries@)[k as int].id == id@);
                return Some(k);
            }
            k = k + 1;
        }
        None
    }

    /// Whether at least one marker waits under the identity `id`.
    pub fn is_pending(&self, id: &String) -> (pending: bool)
        ensures
            pending == has_pending(self@, id@),
    {
        match self.find(id) {
            Some(k) => {
                let pending = self.entries[k].markers.len() > 0;
                assert(entries_view(self.entries@)[k as int].markers.len()
                    == self.entries@[k as int].markers@.len());
                pending
            },
            None => false,
        }
    }

    /// Puts `markers` under the identity `id`, in the place of what stood
    /// there before.
    pub fn insert(&mut self, id: String, markers: Vec<String>)
        ensures
            final(self)@ == with_entry(
                old(self)@,
                (NotificationsEntry { id, markers })@,
            ),
    {
        proof {
            use_type_invariant(&*self);
        }
        let place = self.find(&id);
        let ghost before = self@;
        let entry = NotificationsEntry { id, markers };
        let mut taken = NotificationsBucket { entries: Vec::new() };
        std::mem::swap(self, &mut taken);
        let mut entries = taken.entries;
        match place {
            Some(k) => {
                entries.set(k, entry);
                assert(entries_view(entries@) =~= before.update(k as int, entry@));
            },
            None => {
                entries.push(entry);
                assert(entries_view(entries@) =~= before.push(entry@));
            },
        }
        *self = NotificationsBucket { entries };
    }
}

} // verus!
