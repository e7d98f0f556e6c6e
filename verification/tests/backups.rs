use rigger::db::{backup_name, newest_first, pruned, stamp_of};

#[test]
fn a_backup_name_gives_back_the_moment_it_was_taken() {
    assert_eq!(stamp_of("rigger.v23-20260915-080501.bak").as_deref(), Some("2026-09-15T08:05:01Z"));
    // The suffix that keeps two copies inside one second apart is not
    // part of the moment.
    assert_eq!(stamp_of("rigger.v23-20260915-080501-2.bak").as_deref(), Some("2026-09-15T08:05:01Z"));
    // A stem with dots of its own still parses: the schema is found
    // from the right.
    assert_eq!(stamp_of("my.db.v1-20260101-000000.bak").as_deref(), Some("2026-01-01T00:00:00Z"));
}

#[test]
fn a_name_that_is_not_a_moment_gives_no_moment() {
    // Right shape, impossible month: shape alone must not be enough.
    assert_eq!(stamp_of("rigger.v1-20261345-080501.bak"), None);
    // Impossible hour, and a day that does not exist in that month.
    assert_eq!(stamp_of("rigger.v1-20260915-250000.bak"), None);
    assert_eq!(stamp_of("rigger.v1-20260231-080501.bak"), None);
    // Not stamped at all.
    assert_eq!(stamp_of("rigger.bak"), None);
    assert_eq!(stamp_of("rigger.v1-notadate-080501.bak"), None);
    // Not a copy.
    assert_eq!(stamp_of("rigger.v1-20260915-080501.db"), None);
}

#[test]
fn a_copy_is_named_by_its_schema_and_its_moment() {
    assert_eq!(backup_name("rigger", 23, "2026-09-15T08:05:01Z", 1), "rigger.v23-20260915-080501.bak");
    assert_eq!(backup_name("rigger", 23, "2026-09-15T08:05:01Z", 2), "rigger.v23-20260915-080501-2.bak");
    assert_eq!(backup_name("my.db", 1, "2026-01-01T00:00:00Z", 0), "my.db.v1-20260101-000000.bak");
}

#[test]
fn the_name_of_a_copy_reads_back_as_its_moment() {
    let name = backup_name("rigger", 7, "2026-02-28T23:59:59Z", 3);
    assert_eq!(stamp_of(&name).as_deref(), Some("2026-02-28T23:59:59Z"));
}

#[test]
fn copies_are_listed_newest_first_and_a_numbered_copy_after_its_first() {
    let names = vec![
        "rigger.v23-20260915-080501-2.bak".to_string(),
        "rigger.v23-20260101-000000.bak".to_string(),
        "rigger.v23-20260915-080501-10.bak".to_string(),
        "rigger.v23-20260915-080501.bak".to_string(),
        "rigger.v22-20261001-120000.bak".to_string(),
    ];
    assert_eq!(
        newest_first(names),
        vec![
            "rigger.v22-20261001-120000.bak".to_string(),
            "rigger.v23-20260915-080501-10.bak".to_string(),
            "rigger.v23-20260915-080501-2.bak".to_string(),
            "rigger.v23-20260915-080501.bak".to_string(),
            "rigger.v23-20260101-000000.bak".to_string(),
        ]
    );
}

#[test]
fn pruning_keeps_the_newest_and_never_none() {
    let names: Vec<String> = vec!["c".to_string(), "b".to_string(), "a".to_string()];
    assert_eq!(pruned(&names, 2), vec!["a".to_string()]);
    assert_eq!(pruned(&names, 0), vec!["b".to_string(), "a".to_string()]);
    assert!(pruned(&names, 5).is_empty());
}
