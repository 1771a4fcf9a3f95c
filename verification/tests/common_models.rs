use std::cmp::Ordering;
use stremio_core::models::common::{compare_with_priorities, eq_update};
use stremio_core::runtime::effects::{Effect, Effects};
use stremio_core::runtime::msg::{Action, Internal, Msg};

fn table(entries: &[&str]) -> Vec<String> {
    entries.iter().map(|entry| entry.to_string()).collect()
}

#[test]
fn eq_update_keeps_an_equal_value() {
    let mut value = vec![1u64, 2, 3];
    let effects = eq_update(&mut value, vec![1, 2, 3]);
    assert!(!effects.has_changed);
    assert!(effects.is_empty());
    assert_eq!(value, vec![1, 2, 3]);
}

#[test]
fn eq_update_replaces_a_different_value() {
    let mut value = vec![1u64, 2, 3];
    let effects = eq_update(&mut value, vec![1, 2]);
    assert!(effects.has_changed);
    assert!(effects.is_empty());
    assert_eq!(value, vec![1, 2]);
}

#[test]
fn eq_update_twice_reports_no_change_the_second_time() {
    let mut value = Some("a".to_string());
    let first = eq_update(&mut value, Some("b".to_string()));
    let second = eq_update(&mut value, Some("b".to_string()));
    assert!(first.has_changed);
    assert!(!second.has_changed);
    assert_eq!(value, Some("b".to_string()));
}

#[test]
fn effects_none_is_a_change_without_work() {
    let effects = Effects::none();
    assert!(effects.has_changed);
    assert_eq!(effects.len(), 0);
}

#[test]
fn effects_unchanged_keeps_the_work() {
    let effects = Effects::msg(Msg::Action(Action::Unload)).unchanged();
    assert!(!effects.has_changed);
    assert_eq!(effects.len(), 1);
    assert!(matches!(
        effects.effects[0],
        Effect::Msg(Msg::Action(Action::Unload))
    ));
}

#[test]
fn effects_join_keeps_the_order_and_ors_the_flags() {
    let first = Effects::one(Effect::Task("first".to_string())).unchanged();
    let second = Effects::msg(Msg::Internal(Internal::LibraryChanged));
    let joined = first.join(second);
    assert!(joined.has_changed);
    assert_eq!(joined.len(), 2);
    assert!(matches!(&joined.effects[0], Effect::Task(name) if name == "first"));
    assert!(matches!(
        joined.effects[1],
        Effect::Msg(Msg::Internal(Internal::LibraryChanged))
    ));
    let still = Effects::none().unchanged().join(Effects::none().unchanged());
    assert!(!still.has_changed);
    assert!(still.is_empty());
}

#[test]
fn effects_join_is_associative() {
    let names = |effects: &Effects| -> Vec<String> {
        effects
            .effects
            .iter()
            .map(|effect| match effect {
                Effect::Task(name) => name.clone(),
                Effect::Msg(_) => "msg".to_string(),
            })
            .collect()
    };
    let make = |name: &str, changed: bool| {
        let effects = Effects::one(Effect::Task(name.to_string()));
        if changed {
            effects
        } else {
            effects.unchanged()
        }
    };
    let left = make("a", false).join(make("b", true)).join(make("c", false));
    let right = make("a", false).join(make("b", true).join(make("c", false)));
    assert_eq!(names(&left), vec!["a", "b", "c"]);
    assert_eq!(names(&left), names(&right));
    assert_eq!(left.has_changed, right.has_changed);
    assert!(left.has_changed);
}

#[test]
fn effects_join_has_an_identity() {
    let identity = Effects::none().unchanged();
    let joined = identity.join(Effects::one(Effect::Task("a".to_string())).unchanged());
    assert!(!joined.has_changed);
    assert_eq!(joined.len(), 1);
    let joined = Effects::one(Effect::Task("a".to_string())).join(Effects::none().unchanged());
    assert!(joined.has_changed);
    assert_eq!(joined.len(), 1);
}

#[test]
fn priorities_order_listed_types_by_their_place() {
    let priorities = table(&["movie", "series", "channel"]);
    assert_eq!(
        compare_with_priorities("movie", "series", &priorities),
        Ordering::Less
    );
    assert_eq!(
        compare_with_priorities("channel", "series", &priorities),
        Ordering::Greater
    );
    assert_eq!(
        compare_with_priorities("series", "series", &priorities),
        Ordering::Equal
    );
}

#[test]
fn priorities_put_unlisted_types_behind_listed_ones() {
    let priorities = table(&["movie", "series"]);
    assert_eq!(
        compare_with_priorities("anime", "series", &priorities),
        Ordering::Greater
    );
    assert_eq!(
        compare_with_priorities("movie", "anime", &priorities),
        Ordering::Less
    );
}

#[test]
fn priorities_order_unlisted_types_by_their_text() {
    let priorities = table(&["movie"]);
    assert_eq!(
        compare_with_priorities("anime", "tv", &priorities),
        Ordering::Less
    );
    assert_eq!(
        compare_with_priorities("tv", "anime", &priorities),
        Ordering::Greater
    );
    assert_eq!(
        compare_with_priorities("tv", "tv", &priorities),
        Ordering::Equal
    );
    assert_eq!(compare_with_priorities("a", "b", &table(&[])), Ordering::Less);
}

#[test]
fn priorities_take_the_first_of_two_entries() {
    let priorities = table(&["movie", "series", "movie"]);
    assert_eq!(
        compare_with_priorities("movie", "series", &priorities),
        Ordering::Less
    );
}
