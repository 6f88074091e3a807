use fb2_clean::{
    decide_item, derived_target, get_input_file_type, new_dir, removal_sorted, select_input_files,
    Config, ConfigError, Dest, Input, InputFile, InputFileType, ItemDecision, Output, Tags,
};

fn cfg(zip: bool, unzip: bool, out_dir: &str) -> Config {
    Config {
        input: Input::Dir(b"/in".to_vec()),
        output: Output {
            dir: out_dir.as_bytes().to_vec(),
            created_dirs: Vec::new(),
        },
        recursive: 0,
        tags: Tags::default(),
        zip,
        unzip,
        force: false,
        exit_on_err: false,
    }
}

fn src_file(ty: InputFileType, path: &str) -> InputFile {
    InputFile {
        ty,
        path: path.as_bytes().to_vec(),
    }
}

#[test]
fn classify_extensions() {
    assert_eq!(
        Some(InputFileType::Fb2),
        get_input_file_type(b"/d/book.fb2")
    );
    assert_eq!(
        Some(InputFileType::Fb2Zip),
        get_input_file_type(b"/d/book.fb2.zip")
    );
    assert_eq!(Some(InputFileType::Fb2), get_input_file_type(b"/d/UP.FB2"));
    assert_eq!(
        Some(InputFileType::Fb2Zip),
        get_input_file_type(b"/d/UP.FB2.ZIP")
    );
    assert_eq!(None, get_input_file_type(b"/d/book.txt"));
    assert_eq!(None, get_input_file_type(b"fb2"));
    assert_eq!(None, get_input_file_type(b""));
}

#[test]
fn select_keeps_recognized_files_in_order() {
    let picked = select_input_files(vec![
        b"/d/a.fb2".to_vec(),
        b"/d/skip.txt".to_vec(),
        b"/d/b.FB2.zip".to_vec(),
    ]);
    assert_eq!(2, picked.len());
    assert_eq!(InputFileType::Fb2, picked[0].ty);
    assert_eq!(b"/d/a.fb2".to_vec(), picked[0].path);
    assert_eq!(InputFileType::Fb2Zip, picked[1].ty);
    assert_eq!(b"/d/b.FB2.zip".to_vec(), picked[1].path);
}

#[test]
fn input_unsupported_extension() {
    let r = Input::new(b"/d/book.txt".to_vec(), false);
    assert_eq!(Err(ConfigError::UnsupportedExtension), r);
    let d = Input::new(b"/d".to_vec(), true).unwrap();
    assert_eq!(Input::Dir(b"/d".to_vec()), d);
}

#[test]
fn dest_preserves_source_form() {
    let c = cfg(false, false, "/out");
    let d = Dest::new(&c, None, &src_file(InputFileType::Fb2, "/in/book.fb2"));
    assert_eq!(InputFileType::Fb2, d.ty);
    assert_eq!(b"book".to_vec(), d.stem);
    assert_eq!(b"/out/book.fb2".to_vec(), d.path);
    assert!(d.subdir_paths.is_empty());
    assert!(d.created_dirs.is_empty());
}

#[test]
fn dest_zip_policy_always_archives() {
    let c = cfg(true, false, "/out");
    let d = Dest::new(&c, None, &src_file(InputFileType::Fb2, "/in/book.fb2"));
    assert_eq!(InputFileType::Fb2Zip, d.ty);
    assert_eq!(b"/out/book.fb2.zip".to_vec(), d.path);
}

#[test]
fn dest_unzip_policy_always_plain() {
    let c = cfg(false, true, "/out");
    let d = Dest::new(&c, None, &src_file(InputFileType::Fb2Zip, "/in/book.fb2.zip"));
    assert_eq!(InputFileType::Fb2, d.ty);
    assert_eq!(b"book".to_vec(), d.stem);
    assert_eq!(b"/out/book.fb2".to_vec(), d.path);
}

#[test]
fn dest_strips_both_container_suffixes() {
    let c = cfg(false, false, "/out");
    let d = Dest::new(&c, None, &src_file(InputFileType::Fb2Zip, "/in/tale.fb2.zip"));
    assert_eq!(b"tale".to_vec(), d.stem);
    assert_eq!(b"/out/tale.fb2.zip".to_vec(), d.path);
    assert_eq!(b"tale.fb2".to_vec(), d.zip_start_file());
}

#[test]
fn dest_descends_subdirectory_chain() {
    let c = cfg(false, false, "/out");
    let subs = Some(vec![b"x".to_vec(), b"y".to_vec()]);
    let d = Dest::new(&c, subs, &src_file(InputFileType::Fb2, "/in/x/y/b.fb2"));
    assert_eq!(
        vec![b"/out/x".to_vec(), b"/out/x/y".to_vec()],
        d.subdir_paths
    );
    assert_eq!(b"/out/x/y/b.fb2".to_vec(), d.path);
}

#[test]
fn force_path_same_form_is_the_source() {
    let c = cfg(false, false, "/out");
    let src = src_file(InputFileType::Fb2, "/in/book.fb2");
    let d = Dest::new(&c, None, &src);
    assert_eq!(b"/in/book.fb2".to_vec(), d.force_path(&src));
}

#[test]
fn force_path_changed_form_is_a_sibling() {
    let c = cfg(true, false, "/out");
    let src = src_file(InputFileType::Fb2, "/in/book.fb2");
    let d = Dest::new(&c, None, &src);
    assert_eq!(b"/in/book.fb2.zip".to_vec(), d.force_path(&src));
}

#[test]
fn existing_output_skip_rule() {
    assert_eq!(ItemDecision::SkipExisting, decide_item(false, true));
    assert_eq!(ItemDecision::Process, decide_item(true, true));
    assert_eq!(ItemDecision::Process, decide_item(false, false));
    assert_eq!(ItemDecision::Process, decide_item(true, false));
}

#[test]
fn removal_order_is_deepest_first() {
    let mk = |dirs: &[&str]| Dest {
        ty: InputFileType::Fb2,
        stem: Vec::new(),
        path: Vec::new(),
        subdir_paths: Vec::new(),
        created_dirs: dirs.iter().map(|d| d.as_bytes().to_vec()).collect(),
    };
    // An earlier item created a parent, a later one only its child:
    // equal counts, but the child must be pruned first.
    let parent = mk(&["/out/a"]);
    let child = mk(&["/out/a/b"]);
    let shallow = mk(&[]);
    let deep = mk(&["/out/x", "/out/x/y", "/out/x/y/z"]);
    let sorted = removal_sorted(vec![parent, shallow, deep, child]);
    let depths: Vec<usize> = sorted
        .iter()
        .map(|d| {
            d.created_dirs
                .last()
                .map(|p| p.iter().filter(|&&b| b == b'/').count())
                .unwrap_or(0)
        })
        .collect();
    assert_eq!(vec![4, 3, 2, 0], depths);
    assert_eq!(
        Some(&b"/out/a/b".to_vec()),
        sorted[1].created_dirs.last()
    );
    assert_eq!(
        Some(&b"/out/a".to_vec()),
        sorted[2].created_dirs.last()
    );
}

#[test]
fn output_dir_is_normalized() {
    // Component normalization: `.` names, repeated and trailing
    // separators never reach the stored output root, so the recursive
    // scan's prefix test recognizes it.
    let dot = Output::new(b".", false, b"/c").unwrap();
    assert_eq!(b"/c".to_vec(), dot.dir);
    let trailing = Output::new(b"out/", false, b"/c").unwrap();
    assert_eq!(b"/c/out".to_vec(), trailing.dir);
    let doubled = Output::new(b"/a//b/./c", false, b"/c").unwrap();
    assert_eq!(b"/a/b/c".to_vec(), doubled.dir);
}

#[test]
fn output_rejects_file_target() {
    assert_eq!(
        Err(ConfigError::NotADirectory),
        new_dir(b"/out/file.fb2", true, b"/cwd")
    );
    let r = Output::new(b"rel/dir", false, b"/cwd").unwrap();
    assert_eq!(b"/cwd/rel/dir".to_vec(), r.dir);
    let abs = Output::new(b"/abs/dir", false, b"/cwd").unwrap();
    assert_eq!(b"/abs/dir".to_vec(), abs.dir);
}

#[test]
fn derived_output_sits_beside_the_input() {
    let file = Input::File(src_file(InputFileType::Fb2, "/d/sub/book.fb2"));
    assert_eq!(b"/d/sub/cleaned".to_vec(), derived_target(&file));
    let dir = Input::Dir(b"/d".to_vec());
    assert_eq!(b"/d/cleaned".to_vec(), derived_target(&dir));
    let o = Output::try_from_input(&dir, false, b"/cwd").unwrap();
    assert_eq!(b"/d/cleaned".to_vec(), o.dir);
}
