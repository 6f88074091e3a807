use fb2_clean::Tags;
use std::collections::HashSet;

fn as_set(t: &Tags) -> HashSet<Vec<u8>> {
    t.0.iter().cloned().collect()
}

#[test]
fn tags() {
    for tags in ["a", "b", "a,b", "a,c"] {
        let exp: HashSet<Vec<u8>> = tags.split(',').map(|t| t.as_bytes().to_vec()).collect();
        let parsed = Tags::new(tags.as_bytes());
        assert_eq!(as_set(&parsed), exp);
    }
}

#[test]
fn tags_empty_pieces_dropped() {
    let parsed = Tags::new(b",a,,b,");
    let exp: HashSet<Vec<u8>> = [b"a".to_vec(), b"b".to_vec()].into_iter().collect();
    assert_eq!(as_set(&parsed), exp);
    assert!(parsed.contains(b"a"));
    assert!(parsed.contains(b"b"));
    assert!(!parsed.contains(b""));
    assert!(!parsed.contains(b"c"));
}

#[test]
fn tags_default() {
    let tags = Tags::default();
    assert_eq!(3, tags.0.len());
    for t in ["binary", "coverpage", "image"] {
        assert!(tags.contains(t.as_bytes()));
    }
    assert!(!tags.contains(b"body"));
}
