//! What every model is built from: the update that replaces a value only
//! where the new one differs, and the order of types by a table of priorities.

use crate::runtime::effects::Effects;
use crate::runtime::effects::EffectsView;
use crate::text::compare_text;
use crate::text::lemma_text_before_asymmetric;
use crate::text::lemma_text_before_total;
use crate::text::lemma_text_before_transitive;
use crate::text::ordering_is;
use crate::text::same_text;
use crate::text::text_before;
use crate::text::texts_view;
use std::cmp::Ordering;
use vstd::prelude::*;
use vstd::std_specs::cmp::PartialEqSpec;

verus! {

/// Puts `next_value` in the place of `*value` unless the two are equal. Equal
/// values leave `*value` as it is, and the outcome says that nothing changed;
/// the outcome never holds work.
pub fn eq_update<T: PartialEq>(value: &mut T, next_value: T) -> (effects: Effects)
    requires
        T::obeys_eq_spec(),
    ensures
        (*old(value)).eq_spec(&next_value) ==> *final(value) == *old(value) && effects@
            == EffectsView::none().unchanged(),
        !(*old(value)).eq_spec(&next_value) ==> *final(value) == next_value && effects@
            == EffectsView::none(),
{
    if *value == next_value {
        Effects::none().unchanged()
    } else {
        *value = next_value;
        Effects::none()
    }
}

/// The place of the first entry of `table` that is `tag`, counted from zero;
/// the length of `table` where no entry is.
pub open spec fn place_in(table: Seq<Seq<char>>, tag: Seq<char>) -> int
    decreases table.len(),
{
    if table.len() == 0 {
        0
    } else if table[0] == tag {
        0
    } else {
        1 + place_in(table.drop_first(), tag)
    }
}

/// Whether the type `a` stands strictly before the type `b` in the order that
/// `table` gives: the types that `table` lists come in the order of their
/// first entries, and before all others; the others come in the order of their
/// texts.
pub open spec fn priority_before(a: Seq<char>, b: Seq<char>, table: Seq<Seq<char>>) -> bool {
    if place_in(table, a) != place_in(table, b) {
        place_in(table, a) < place_in(table, b)
    } else {
        place_in(table, a) == table.len() && text_before(a, b)
    }
}

/// A place is within the table or just behind it, and within the table it
/// holds the tag that was looked for.
pub proof fn lemma_place_in(table: Seq<Seq<char>>, tag: Seq<char>)
    ensures
        0 <= place_in(table, tag) <= table.len(),
        place_in(table, tag) < table.len() ==> table[place_in(table, tag)] == tag,
        place_in(table, tag) == table.len() <==> !table.contains(tag),
        forall|i: int| 0 <= i < place_in(table, tag) ==> table[i] != tag,
    decreases table.len(),
{
    if table.len() > 0 && table[0] != tag {
        let rest = table.drop_first();
        lemma_place_in(rest, tag);
        assert forall|i: int| 0 <= i < place_in(table, tag) implies table[i] != tag by {
            if i > 0 {
                assert(rest[i - 1] == table[i]);
            }
        }
        if rest.contains(tag) {
            let k = choose|k: int| 0 <= k < rest.len() && rest[k] == tag;
            assert(table[k + 1] == tag);
        }
        if table.contains(tag) {
            let k = choose|k: int| 0 <= k < table.len() && table[k] == tag;
            assert(rest[k - 1] == tag);
        }
    } else if table.len() > 0 {
        assert(table[0] == tag);
    }
}

/// Of two types at most one stands before the other.
pub proof fn lemma_priority_asymmetric(a: Seq<char>, b: Seq<char>, table: Seq<Seq<char>>)
    ensures
        !(priority_before(a, b, table) && priority_before(b, a, table)),
{
    lemma_text_before_asymmetric(a, b);
}

/// Of two different types one stands before the other.
pub proof fn lemma_priority_total(a: Seq<char>, b: Seq<char>, table: Seq<Seq<char>>)
    ensures
        a != b ==> priority_before(a, b, table) || priority_before(b, a, table),
{
    lemma_place_in(table, a);
    lemma_place_in(table, b);
    lemma_text_before_total(a, b);
}

/// The order of types is transitive.
pub proof fn lemma_priority_transitive(
    a: Seq<char>,
    b: Seq<char>,
    c: Seq<char>,
    table: Seq<Seq<char>>,
)
    requires
        priority_before(a, b, table),
        priority_before(b, c, table),
    ensures
        priority_before(a, c, table),
{
    lemma_place_in(table, a);
    lemma_place_in(table, b);
    lemma_place_in(table, c);
    if place_in(table, a) == place_in(table, b) && place_in(table, b) == place_in(table, c) {
        lemma_text_before_transitive(a, b, c);
    }
}

/// The place of the first entry of `table` that is `tag`; the length of
/// `table` where no entry is.
fn place_of(table: &Vec<String>, tag: &str) -> (place: usize)
    ensures
        place == place_in(texts_view(table@), tag@),
{
    let ghost all = texts_view(table@);
    let mut k: usize = 0;
    assert(all.skip(0) =~= all);
    while k < table.len()
        invariant
            k <= table.len(),
            all == texts_view(table@),
            place_in(all, tag@) == k + place_in(all.skip(k as int), tag@),
        decreases table.len() - k,
    {
        let ghost rest = all.skip(k as int);
        assert(rest[0] == table@[k as int]@);
        assert(rest.drop_first() =~= all.skip(k + 1));
        if same_text(table[k].as_str(), tag) {
            return k;
        }
        k = k + 1;
    }
    assert(all.skip(k as int).len() == 0);
    k
}

/// Compares two types by the order that `priorities` gives: the types that it
/// lists come in the order of their first entries, and before all others; the
/// others come in the order of their texts.
pub fn compare_with_priorities(a: &str, b: &str, priorities: &Vec<String>) -> (r: Ordering)
    ensures
        ordering_is(
            r,
            priority_before(a@, b@, texts_view(priorities@)),
            priority_before(b@, a@, texts_view(priorities@)),
        ),
{
    let place_a = place_of(priorities, a);
    let place_b = place_of(priorities, b);
    proof {
        lemma_place_in(texts_view(priorities@), a@);
        lemma_place_in(texts_view(priorities@), b@);
        lemma_text_before_asymmetric(a@, b@);
    }
    if place_a < place_b {
        Ordering::Less
    } else if place_a > place_b {
        Ordering::Greater
    } else if place_a < priorities.len() {
        Ordering::Equal
    } else {
        compare_text(a, b)
    }
}

} // verus!
