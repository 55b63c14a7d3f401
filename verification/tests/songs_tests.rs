use autofy::songs::{contains_id, copy_ids, unique_ids, PlayableId};

fn track(id: &str) -> PlayableId {
    PlayableId::Track(id.to_string())
}

fn episode(id: &str) -> PlayableId {
    PlayableId::Episode(id.to_string())
}

#[test]
fn same_as_compares_kind_and_id() {
    assert!(track("a").same_as(&track("a")));
    assert!(!track("a").same_as(&track("b")));
    assert!(!track("a").same_as(&episode("a")));
    assert!(episode("x").same_as(&episode("x")));
}

#[test]
fn duplicate_keeps_the_id() {
    assert_eq!(track("abc").duplicate(), track("abc"));
    assert_eq!(episode("e1").duplicate(), episode("e1"));
}

#[test]
fn contains_id_finds_only_present_ids() {
    let ids = vec![track("a"), episode("b")];
    assert!(contains_id(&ids, &track("a")));
    assert!(contains_id(&ids, &episode("b")));
    assert!(!contains_id(&ids, &track("b")));
    assert!(!contains_id(&Vec::new(), &track("a")));
}

#[test]
fn copy_ids_is_equal() {
    let ids = vec![track("a"), episode("b"), track("a")];
    assert_eq!(copy_ids(&ids), ids);
}

#[test]
fn unique_ids_keeps_first_occurrences_in_order() {
    let ids = vec![track("b"), track("a"), track("b"), episode("a"), track("a"), episode("a")];
    assert_eq!(unique_ids(&ids), vec![track("b"), track("a"), episode("a")]);
}

#[test]
fn unique_ids_of_empty_and_distinct() {
    assert_eq!(unique_ids(&Vec::new()), Vec::<PlayableId>::new());
    let ids = vec![track("x"), track("y"), episode("x")];
    assert_eq!(unique_ids(&ids), ids);
}

#[test]
fn unique_ids_is_idempotent() {
    let ids = vec![track("c"), track("c"), track("d"), track("c")];
    let once = unique_ids(&ids);
    assert_eq!(unique_ids(&once), once);
}
