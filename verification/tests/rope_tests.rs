use svim::text::{Rope, Text, TextError};

fn rope_of(s: &str) -> Rope {
    Rope::Text(Text::new(s))
}

fn text_of(r: &Rope) -> String {
    let n = r.character_count();
    r.collect_text(0, n).unwrap().iter().collect()
}

#[test]
fn chunk_new_holds_the_text() {
    let t = Text::new("hi");
    let r = Rope::Text(t);
    assert_eq!(r.character_count(), 2);
    assert_eq!(r.char_at(0), Ok('h'));
    assert_eq!(r.char_at(1), Ok('i'));
}

#[test]
fn chunk_add_text_appends() {
    let mut t = Text::new("hi");
    t.add_text('!');
    let r = Rope::Text(t);
    assert_eq!(text_of(&r), "hi!");
}

#[test]
fn split_then_concat_round_trips() {
    for offset in 0..=5 {
        let (left, right) = rope_of("hello").split_at(offset);
        let joined = Rope::concat(left, right);
        assert_eq!(text_of(&joined), "hello");
    }
}

#[test]
fn split_parts_hold_the_subranges() {
    let (left, right) = rope_of("hello").split_at(2);
    assert_eq!(text_of(&left), "he");
    assert_eq!(text_of(&right), "llo");
}

#[test]
fn concat_adds_character_counts() {
    let joined = Rope::concat(rope_of("abc"), rope_of("de"));
    assert_eq!(joined.character_count(), 3 + 2);
    assert_eq!(text_of(&joined), "abcde");
}

#[test]
fn concat_with_empty_is_identity() {
    let left_identity = Rope::concat(Rope::new_empty(), rope_of("xyz"));
    assert_eq!(text_of(&left_identity), "xyz");
    assert_eq!(left_identity.tree_depth(), 0);
    let right_identity = Rope::concat(rope_of("xyz"), Rope::new_empty());
    assert_eq!(text_of(&right_identity), "xyz");
    assert_eq!(right_identity.tree_depth(), 0);
}

#[test]
fn char_at_routes_through_branches() {
    let left = Rope::concat(rope_of("ab"), rope_of("cd"));
    let joined = Rope::concat(left, rope_of("ef"));
    let expected = ['a', 'b', 'c', 'd', 'e', 'f'];
    for (i, c) in expected.iter().enumerate() {
        assert_eq!(joined.char_at(i), Ok(*c));
    }
    assert_eq!(joined.char_at(6), Err(TextError::OutOfBounds));
}

#[test]
fn collect_text_restricts_to_the_range() {
    let joined = Rope::concat(rope_of("abc"), rope_of("def"));
    let middle: String = joined.collect_text(2, 4).unwrap().iter().collect();
    assert_eq!(middle, "cd");
    let empty: String = joined.collect_text(3, 3).unwrap().iter().collect();
    assert_eq!(empty, "");
}

#[test]
fn collect_text_rejects_bad_ranges() {
    let r = rope_of("abc");
    assert_eq!(r.collect_text(2, 1), Err(TextError::OutOfBounds));
    assert_eq!(r.collect_text(0, 4), Err(TextError::OutOfBounds));
}

#[test]
fn rebalance_keeps_the_content() {
    let mut r = Rope::new_empty();
    for _ in 0..100 {
        r = Rope::concat(rope_of("a"), r);
    }
    assert!(r.tree_depth() >= 99);
    let balanced = r.rebalance();
    assert_eq!(balanced.character_count(), 100);
    assert!(balanced.tree_depth() <= 10);
    assert_eq!(text_of(&balanced), "a".repeat(100));
}
