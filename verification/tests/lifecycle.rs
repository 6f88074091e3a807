use fb2_clean::{creation_failed, is_under, parent_of, path_join, relative_to, split_components, Output};

#[test]
fn parent_chain_walks_to_the_root() {
    assert_eq!(Some(b"/a/b".to_vec()), parent_of(b"/a/b/c"));
    assert_eq!(Some(b"/a".to_vec()), parent_of(b"/a/b"));
    assert_eq!(Some(b"/".to_vec()), parent_of(b"/a"));
    assert_eq!(None, parent_of(b"/"));
    assert_eq!(None, parent_of(b""));
    assert_eq!(Some(b"".to_vec()), parent_of(b"name"));
}

#[test]
fn join_inserts_one_separator() {
    assert_eq!(b"/a/b".to_vec(), path_join(b"/a", b"b"));
    assert_eq!(b"/a/b".to_vec(), path_join(b"/a/", b"b"));
    assert_eq!(b"b".to_vec(), path_join(b"", b"b"));
}

#[test]
fn benign_creation_race_is_tolerated() {
    // Only a creation error whose directory still does not exist counts
    // as a failure; losing a race to a concurrent creator does not.
    assert!(!creation_failed(false, true));
    assert!(!creation_failed(false, false));
    assert!(!creation_failed(true, true));
    assert!(creation_failed(true, false));
}

#[test]
fn rollback_covers_every_created_directory() {
    // Three missing nested directories were created before the run
    // failed: the pruning order hands all three back, deepest first,
    // so that none of them remains afterwards.
    let mut o = Output {
        dir: b"/t/a/b/c".to_vec(),
        created_dirs: Vec::new(),
    };
    o.record_created(vec![
        b"/t/a/b/c".to_vec(),
        b"/t/a/b".to_vec(),
        b"/t/a".to_vec(),
    ]);
    let order = o.remove_created_dirs();
    assert_eq!(
        vec![b"/t/a/b/c".to_vec(), b"/t/a/b".to_vec(), b"/t/a".to_vec()],
        order
    );
}

#[test]
fn enumeration_excludes_the_output_root() {
    assert!(is_under(b"/in/cleaned", b"/in/cleaned"));
    assert!(is_under(b"/in/cleaned/x", b"/in/cleaned"));
    assert!(!is_under(b"/in/cleaner", b"/in/cleaned"));
    assert!(!is_under(b"/in", b"/in/cleaned"));
}

#[test]
fn subdirectory_chain_of_an_entry() {
    let rel = relative_to(b"/in/x/y", b"/in").unwrap();
    let comps = split_components(&rel);
    assert_eq!(vec![b"x".to_vec(), b"y".to_vec()], comps);
    assert_eq!(None, relative_to(b"/other", b"/in"));
    let empty: Vec<Vec<u8>> = Vec::new();
    assert_eq!(empty, split_components(b"/"));
}
