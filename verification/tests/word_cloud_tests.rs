use svoote::word_cloud::{InsertOutcome, WordCloud};

fn words(c: &WordCloud) -> Vec<(String, usize)> {
    c.words.iter().map(|w| (w.text.clone(), w.count)).collect()
}

#[test]
fn texts_are_counted_under_their_key() {
    let mut c = WordCloud::new();
    assert_eq!(c.insert("  Rust "), InsertOutcome::Added);
    assert_eq!(c.insert("RUST"), InsertOutcome::Counted { from: 0, to: 0 });
    assert_eq!(words(&c), vec![("rust".to_string(), 2)]);
    let long = "X".repeat(70);
    c.insert(&long);
    assert_eq!(c.words[1].text, "x".repeat(64));
}

#[test]
fn a_word_moves_to_the_front_of_its_old_count() {
    let mut c = WordCloud::new();
    c.insert("a");
    c.insert("b");
    c.insert("c");
    assert_eq!(c.insert("c"), InsertOutcome::Counted { from: 2, to: 0 });
    assert_eq!(words(&c), vec![("c".to_string(), 2), ("a".to_string(), 1), ("b".to_string(), 1)]);
    assert_eq!(c.insert("b"), InsertOutcome::Counted { from: 2, to: 1 });
    assert_eq!(words(&c), vec![("c".to_string(), 2), ("b".to_string(), 2), ("a".to_string(), 1)]);
    assert_eq!(c.insert("b"), InsertOutcome::Counted { from: 1, to: 0 });
    assert_eq!(words(&c), vec![("b".to_string(), 3), ("c".to_string(), 2), ("a".to_string(), 1)]);
    assert_eq!(c.insert("d"), InsertOutcome::Added);
    assert_eq!(c.insert("a"), InsertOutcome::Counted { from: 2, to: 2 });
    assert_eq!(
        words(&c),
        vec![("b".to_string(), 3), ("c".to_string(), 2), ("a".to_string(), 2), ("d".to_string(), 1)]
    );
}

#[test]
fn the_words_stay_ordered_by_count() {
    let mut c = WordCloud::new();
    let texts = ["x", "y", "x", "z", "y", "y", "w", "z", "z", "z", "x", "w"];
    for t in texts {
        c.insert(t);
        let counts: Vec<usize> = c.words.iter().map(|w| w.count).collect();
        assert!(counts.windows(2).all(|p| p[0] >= p[1]));
    }
    let total: usize = c.words.iter().map(|w| w.count).sum();
    assert_eq!(total, texts.len());
    assert_eq!(words(&c)[0], ("z".to_string(), 4));
}

#[test]
fn a_counted_word_lands_behind_the_words_counted_more() {
    let mut c = WordCloud::new();
    for t in ["a", "b", "b", "c", "d", "e"] {
        c.insert(t);
    }
    // b:2, then a, c, d, e with 1
    assert_eq!(c.insert("e"), InsertOutcome::Counted { from: 4, to: 1 });
    assert_eq!(
        words(&c),
        vec![
            ("b".to_string(), 2),
            ("e".to_string(), 2),
            ("a".to_string(), 1),
            ("c".to_string(), 1),
            ("d".to_string(), 1)
        ]
    );
}
