use rigger::card::{
    bigram_overlap, containment_hits, customer_numbers, normalise, parse, rank, ticket_ids, tokens, Hit, Verdict,
};

#[test]
fn a_line_breaks_into_ids_numbers_and_text() {
    let q = parse("OPS-512 [CUSTOMER] 561207, 561208: GUI for showing files");
    assert_eq!(q.ids, vec!["OPS-512"]);
    assert_eq!(q.numbers, vec!["561207", "561208"]);
    assert_eq!(q.text, "[CUSTOMER] GUI for showing files");
    let q = parse("acme-7310\nrtf files are not supported");
    assert_eq!(q.ids, vec!["ACME-7310"]);
    assert_eq!(q.text, "rtf files are not supported");
}

#[test]
fn normalisation_folds_case_yo_and_punctuation() {
    assert_eq!(normalise("Ёлка, Ель — ёж!"), "елка ель еж");
    assert_eq!(tokens("не в рф"), Vec::<String>::new());
    let (shared, total) = bigram_overlap("файлы", "файл");
    assert!(2.0 * shared as f64 / total as f64 > 0.7);
}

#[test]
fn ids_and_numbers_are_found_once_each() {
    assert_eq!(ticket_ids("acme-1 ACME-1 x-1 toolongname-1 ab-1234567"), vec!["ACME-1"]);
    assert_eq!(customer_numbers("1234 12345 12345 123456789"), vec!["12345"]);
}

#[test]
fn a_query_word_is_found_by_prefix_either_way() {
    let query = vec!["файл".to_string(), "отчёт".to_string()];
    let candidate = vec!["файлы".to_string(), "формат".to_string()];
    assert_eq!(containment_hits(&query, &candidate), 1);
}

fn hit(key: &str, score: u32) -> Hit {
    Hit {
        score,
        key: key.into(),
        status: "new".into(),
        title: String::new(),
        why: String::new(),
    }
}

#[test]
fn the_best_candidate_comes_first_and_decides() {
    let (hits, verdict) = rank(vec![hit("B", 90), hit("A", 90), hit("C", 20)], 8);
    let keys: Vec<&str> = hits.iter().map(|h| h.key.as_str()).collect();
    assert_eq!(keys, vec!["A", "B", "C"]);
    assert_eq!(verdict, Verdict::Ask);
    let (_, verdict) = rank(vec![hit("A", 90), hit("C", 20)], 8);
    assert_eq!(verdict, Verdict::Take);
    let (hits, verdict) = rank(vec![hit("A", 30), hit("B", 25)], 1);
    assert_eq!(hits.len(), 1);
    assert_eq!(verdict, Verdict::New);
    assert_eq!(rank(vec![], 8).1, Verdict::New);
}

#[test]
fn normalising_twice_changes_nothing_more() {
    for t in ["Ёлка, Ель — ёж!", "  RTF -- export  v2 ", "", "...", "ACME-12: Экспорт в RTF"] {
        let n = normalise(t);
        assert_eq!(normalise(&n), n);
        assert!(!n.starts_with(' ') && !n.ends_with(' ') && !n.contains("  ") && !n.contains('ё'));
        assert!(n.chars().all(|c| c == ' ' || c.is_alphanumeric()));
    }
}
