use kwic::store::Store;
use kwic::store::StoreError;
use kwic::text::{normalize_line, remove_stop_words, split_tokens};
use kwic::windows::build_windows;

fn strings(xs: &[&str]) -> Vec<String> {
    xs.iter().map(|s| s.to_string()).collect()
}

#[test]
fn test_remove_stop_words() {
    let stop_words = vec!["the".to_string(), "a".to_string()];
    let string = vec![
        "The".to_string(),
        "quick".to_string(),
        "brown".to_string(),
        "fox".to_string(),
        "a".to_string(),
        "brown".to_string(),
        "cat".to_string(),
        "sat".to_string(),
    ];

    let result = remove_stop_words(&string, &stop_words);

    assert_eq!(
        result,
        vec![
            "quick".to_string(),
            "brown".to_string(),
            "fox".to_string(),
            "brown".to_string(),
            "cat".to_string(),
            "sat".to_string(),
        ]
    );
}

#[test]
fn test_check_contexts() {
    let mut store = Store::new_in_memory().expect("Error getting connection");

    store
        .ingest("test", &strings(&["The quick brown fox"]), &strings(&[]))
        .expect("Error loading file");

    let contexts = store
        .search(&strings(&["quick", " brown", " fox"]), &strings(&["test"]))
        .expect("Error getting contexts");

    assert_eq!(
        contexts,
        vec![
            (
                "The quick brown fox".to_string(),
                "brown fox The quick".to_string()
            ),
            (
                "The quick brown fox".to_string(),
                "fox The quick brown".to_string()
            ),
            (
                "The quick brown fox".to_string(),
                "quick brown fox The".to_string()
            ),
        ]
    );
}

#[test]
fn normalize_strips_punctuation_and_keeps_case() {
    assert_eq!(normalize_line("Don't stop!"), "Dont stop".to_string());
    assert_eq!(normalize_line(""), "".to_string());
    assert_eq!(normalize_line("   "), "   ".to_string());
    assert_eq!(normalize_line("a-b c_d"), "ab cd".to_string());
}

#[test]
fn split_tokens_drops_empty_runs() {
    assert_eq!(
        split_tokens("  a  bb   c "),
        vec!["a".to_string(), "bb".to_string(), "c".to_string()]
    );
    let none: Vec<String> = vec![];
    assert_eq!(split_tokens(""), none);
    assert_eq!(split_tokens("    "), none);
}

#[test]
fn rotation_anchored_on_quick() {
    let tokens = strings(&["The", "quick", "brown", "fox"]);
    let words = strings(&["quick"]);
    let wins = build_windows(&tokens, &words);
    assert_eq!(wins.len(), 1);
    assert_eq!(wins[0].word, "quick".to_string());
    assert_eq!(wins[0].content, "quick brown fox The".to_string());
}

#[test]
fn window_count_all_distinct() {
    let tokens = strings(&["The", "quick", "brown", "fox"]);
    let words = remove_stop_words(&tokens, &strings(&[]));
    assert_eq!(words, tokens);
    let wins = build_windows(&tokens, &words);
    assert_eq!(wins.len(), 4);
    let contents: Vec<String> = wins.iter().map(|w| w.content.clone()).collect();
    assert_eq!(
        contents,
        vec![
            "The quick brown fox".to_string(),
            "quick brown fox The".to_string(),
            "brown fox The quick".to_string(),
            "fox The quick brown".to_string(),
        ]
    );
    for i in 0..contents.len() {
        for j in 0..contents.len() {
            if i != j {
                assert_ne!(contents[i], contents[j]);
            }
        }
    }
}

#[test]
fn stop_word_never_anchors() {
    let stops = strings(&["the"]);
    let tokens = split_tokens("The cat sat");
    let words = remove_stop_words(&tokens, &stops);
    assert_eq!(words, vec!["cat".to_string(), "sat".to_string()]);
    let wins = build_windows(&tokens, &words);
    assert_eq!(wins.len(), 2);
    for w in &wins {
        assert_ne!(w.word, "the".to_string());
        assert!(w.content.contains("The"));
    }
    assert_eq!(wins[0].content, "cat sat The".to_string());
    assert_eq!(wins[1].content, "sat The cat".to_string());
}

#[test]
fn scenario_single_document_search() {
    let mut store = Store::new_in_memory().expect("store");
    store
        .ingest("test", &strings(&["The quick brown fox"]), &strings(&[]))
        .expect("ingest");
    let rows = store
        .search(&strings(&["quick"]), &strings(&["test"]))
        .expect("search");
    assert_eq!(
        rows,
        vec![(
            "The quick brown fox".to_string(),
            "quick brown fox The".to_string()
        )]
    );
}

#[test]
fn search_is_case_insensitive_on_words() {
    let mut store = Store::new_in_memory().expect("store");
    store
        .ingest("test", &strings(&["The quick brown fox"]), &strings(&[]))
        .expect("ingest");
    let rows = store
        .search(&strings(&["  QuIcK "]), &strings(&["test"]))
        .expect("search");
    assert_eq!(rows.len(), 1);
    assert_eq!(rows[0].1, "quick brown fox The".to_string());
}

#[test]
fn ingest_twice_is_idempotent() {
    let mut store = Store::new_in_memory().expect("store");
    let lines = strings(&["The quick brown fox", "A brown cat sat"]);
    let stops = strings(&[]);
    store.ingest("test", &lines, &stops).expect("first ingest");
    let before = store
        .search(&strings(&[""]), &strings(&[""]))
        .expect("search");
    store.ingest("test", &lines, &stops).expect("second ingest");
    let after = store
        .search(&strings(&[""]), &strings(&[""]))
        .expect("search");
    assert_eq!(before, after);
    assert!(!before.is_empty());
}

#[test]
fn wildcard_search_dominates_single_word() {
    let mut store = Store::new_in_memory().expect("store");
    store
        .ingest(
            "one",
            &strings(&["The quick brown fox", "a brown cat"]),
            &strings(&[]),
        )
        .expect("ingest");
    store
        .ingest("two", &strings(&["brown shoes walk"]), &strings(&[]))
        .expect("ingest");
    let all = store
        .search(&strings(&[""]), &strings(&[""]))
        .expect("search all");
    let brown = store
        .search(&strings(&["brown"]), &strings(&[""]))
        .expect("search brown");
    assert!(!brown.is_empty());
    // every row of the word search appears at least as often in the wildcard search
    for row in &brown {
        let in_brown = brown.iter().filter(|r| *r == row).count();
        let in_all = all.iter().filter(|r| *r == row).count();
        assert!(in_brown <= in_all);
    }
}

#[test]
fn results_sorted_case_insensitively() {
    let mut store = Store::new_in_memory().expect("store");
    store
        .ingest(
            "doc",
            &strings(&["Zebra apple", "apple Zebra", "MANGO fruit"]),
            &strings(&[]),
        )
        .expect("ingest");
    let rows = store
        .search(&strings(&[""]), &strings(&[""]))
        .expect("search");
    assert!(rows.len() >= 6);
    for i in 0..rows.len() - 1 {
        let a = rows[i].1.to_lowercase();
        let b = rows[i + 1].1.to_lowercase();
        assert!(a <= b);
    }
}

#[test]
fn absent_word_gives_empty_result() {
    let mut store = Store::new_in_memory().expect("store");
    store
        .ingest("test", &strings(&["The quick brown fox"]), &strings(&[]))
        .expect("ingest");
    let rows = store
        .search(&strings(&["zebra"]), &strings(&["test"]))
        .expect("search");
    assert!(rows.is_empty());
    let rows2 = store
        .search(&strings(&["quick"]), &strings(&["absent"]))
        .expect("search");
    assert!(rows2.is_empty());
}

#[test]
fn repeated_word_in_line_duplicates_windows() {
    // a content word occurring twice among the filtered words emits its full
    // set of rotated windows once per occurrence
    let tokens = split_tokens("brown cat brown");
    let words = remove_stop_words(&tokens, &strings(&[]));
    assert_eq!(words.len(), 3);
    let wins = build_windows(&tokens, &words);
    // "brown" appears twice in the filtered list and twice in the line:
    // 2 * 2 windows for "brown" plus 1 for "cat"
    assert_eq!(wins.len(), 5);
    assert_eq!(wins[0].content, "brown cat brown".to_string());
    assert_eq!(wins[1].content, "brown brown cat".to_string());
    assert_eq!(wins[2].content, "cat brown brown".to_string());
    assert_eq!(wins[3].content, "brown cat brown".to_string());
    assert_eq!(wins[4].content, "brown brown cat".to_string());
}

#[test]
fn open_at_rejects_unusable_path() {
    let r = Store::open_at(".");
    assert!(matches!(r, Err(StoreError::Storage(_))));
}

#[test]
fn repeated_query_terms_duplicate_rows() {
    let mut store = Store::new_in_memory().expect("store");
    store
        .ingest("test", &strings(&["The quick brown fox"]), &strings(&[]))
        .expect("ingest");
    let rows = store
        .search(&strings(&["quick", "quick"]), &strings(&["test"]))
        .expect("search");
    assert_eq!(rows.len(), 2);
    assert_eq!(rows[0], rows[1]);
}

#[test]
fn padded_terms_match_like_unpadded() {
    let mut store = Store::new_in_memory().expect("store");
    store
        .ingest("test", &strings(&["The quick brown fox"]), &strings(&[]))
        .expect("ingest");
    let plain = store
        .search(&strings(&["quick"]), &strings(&["test"]))
        .expect("search");
    let padded = store
        .search(&strings(&["  quick "]), &strings(&[" test  "]))
        .expect("search");
    assert!(!plain.is_empty());
    assert_eq!(plain, padded);
}

#[test]
fn whitespace_only_entry_is_not_the_wildcard() {
    let mut store = Store::new_in_memory().expect("store");
    store
        .ingest("test", &strings(&["The quick brown fox"]), &strings(&[]))
        .expect("ingest");
    // the wildcard is exactly [""]; [" "] is a specific word that trims to
    // the empty string, which no anchor equals
    let wildcard = store
        .search(&strings(&[""]), &strings(&["test"]))
        .expect("search");
    let blank = store
        .search(&strings(&[" "]), &strings(&["test"]))
        .expect("search");
    assert_eq!(wildcard.len(), 4);
    assert!(blank.is_empty());
}
