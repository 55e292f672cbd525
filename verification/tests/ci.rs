use apex_exec::ci::{rendered_location, shard_tests, validate_shard, CiShard, SelectionMode};

fn names(values: &[&str]) -> Vec<String> {
    values.iter().map(|value| value.to_string()).collect()
}

#[test]
fn shards_must_have_an_index_below_a_positive_total() {
    assert!(validate_shard(CiShard { index: 0, total: 1 }).is_ok());
    assert!(validate_shard(CiShard { index: 2, total: 3 }).is_ok());
    assert_eq!(
        validate_shard(CiShard { index: 3, total: 3 }).unwrap_err(),
        "invalid CI shard 3/3; index is zero-based and must be below a positive total"
    );
    assert!(validate_shard(CiShard { index: 0, total: 0 }).is_err());
    assert_eq!(CiShard::default(), CiShard { index: 0, total: 1 });
}

#[test]
fn shards_take_every_total_th_test_from_their_index() {
    let selected = names(&["A.a", "A.b", "B.a", "B.b", "C.a"]);
    assert_eq!(
        shard_tests(selected.clone(), CiShard { index: 0, total: 2 }),
        names(&["A.a", "B.a", "C.a"])
    );
    assert_eq!(
        shard_tests(selected.clone(), CiShard { index: 1, total: 2 }),
        names(&["A.b", "B.b"])
    );
    assert_eq!(shard_tests(selected.clone(), CiShard { index: 0, total: 1 }), selected);
    assert!(shard_tests(selected, CiShard { index: 5, total: 6 }).is_empty());
}

#[test]
fn every_selected_test_lands_in_exactly_one_shard() {
    let selected = names(&["t0", "t1", "t2", "t3", "t4", "t5", "t6"]);
    let total = 3;
    let mut seen: Vec<String> = Vec::new();
    for index in 0..total {
        seen.extend(shard_tests(selected.clone(), CiShard { index, total }));
    }
    seen.sort();
    assert_eq!(seen, selected);
}

#[test]
fn selection_modes_have_readable_labels() {
    assert_eq!(SelectionMode::All.label(), "all tests");
    assert_eq!(SelectionMode::Impacted.label(), "dependency-impacted tests");
    assert_eq!(
        SelectionMode::ConservativeAll.label(),
        "all tests (conservative fallback)"
    );
}

#[test]
fn rendered_locations_split_at_the_last_two_colons() {
    let rendered = "error: unknown variable\n  --> classes/A.cls:12:7\n   |\n";
    assert_eq!(
        rendered_location(rendered),
        Some(("classes/A.cls".to_string(), 12, 7))
    );
    assert_eq!(
        rendered_location("--> C:/work/A.cls:+3:4"),
        Some(("C:/work/A.cls".to_string(), 3, 4))
    );
    assert_eq!(rendered_location("--> A.cls:3"), None);
    assert_eq!(rendered_location("--> A.cls:x:4"), None);
    assert_eq!(rendered_location("no location here"), None);
    assert_eq!(rendered_location("--> A.cls:1:99999999999999999999999"), None);
}
