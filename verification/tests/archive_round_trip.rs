use fb2_clean::{process_document, Dest, InputFile, InputFileType, Tags};
use std::io::{Cursor, Read, Write};
use zip::write::SimpleFileOptions;
use zip::{ZipArchive, ZipWriter};

fn zip_with(entries: &[(&str, &[u8])]) -> Vec<u8> {
    let mut w = ZipWriter::new(Cursor::new(Vec::new()));
    for (name, content) in entries {
        w.start_file(name.to_string(), SimpleFileOptions::default())
            .unwrap();
        w.write_all(content).unwrap();
    }
    w.finish().unwrap().into_inner()
}

fn source(ty: InputFileType, path: &str) -> InputFile {
    InputFile {
        ty,
        path: path.as_bytes().to_vec(),
    }
}

fn dest(ty: InputFileType, stem: &str) -> Dest {
    Dest {
        ty,
        stem: stem.as_bytes().to_vec(),
        path: Vec::new(),
        subdir_paths: Vec::new(),
        created_dirs: Vec::new(),
    }
}

#[test]
fn zip_round_trip_preserving_container() {
    let src = zip_with(&[("book.fb2", b"<a><b><c/></b><d/></a>")]);
    let tags = Tags::new(b"b");
    let out = process_document(
        src,
        &source(InputFileType::Fb2Zip, "/in/book.fb2.zip"),
        &dest(InputFileType::Fb2Zip, "book"),
        &tags,
    )
    .expect("archived source round-trips");

    let mut archive = ZipArchive::new(Cursor::new(out)).expect("output is a zip archive");
    assert_eq!(1, archive.len());
    let mut entry = archive.by_index(0).unwrap();
    assert_eq!("book.fb2", entry.name());
    let mut content = Vec::new();
    entry.read_to_end(&mut content).unwrap();
    assert_eq!(content, b"<a><d/></a>".to_vec());
}

#[test]
fn first_matching_entry_wins() {
    let src = zip_with(&[
        ("notes.txt", b"skip me"),
        ("one.fb2", b"<a>first</a>"),
        ("two.fb2", b"<a>second</a>"),
    ]);
    let tags = Tags::new(b"");
    let out = process_document(
        src,
        &source(InputFileType::Fb2Zip, "/in/one.fb2.zip"),
        &dest(InputFileType::Fb2, "one"),
        &tags,
    )
    .unwrap();
    assert_eq!(out, b"<a>first</a>".to_vec());
}

#[test]
fn inner_extension_matches_case_insensitively() {
    let src = zip_with(&[("BOOK.FB2", b"<a/>")]);
    let tags = Tags::new(b"");
    let out = process_document(
        src,
        &source(InputFileType::Fb2Zip, "/in/BOOK.FB2.ZIP"),
        &dest(InputFileType::Fb2, "BOOK"),
        &tags,
    )
    .unwrap();
    assert_eq!(out, b"<a/>".to_vec());
}

#[test]
fn missing_inner_document_names_the_archive() {
    let src = zip_with(&[("readme.txt", b"nothing here")]);
    let tags = Tags::new(b"");
    let r = process_document(
        src,
        &source(InputFileType::Fb2Zip, "/in/empty.fb2.zip"),
        &dest(InputFileType::Fb2, "x"),
        &tags,
    );
    match r {
        Err(fb2_clean::CleanError::MissingEntry(p)) => {
            assert_eq!(p, b"/in/empty.fb2.zip".to_vec());
        }
        other => panic!("expected the missing-entry error, got {:?}", other),
    }
}

#[test]
fn garbage_archive_is_an_error() {
    let tags = Tags::new(b"");
    let r = process_document(
        b"this is not a zip".to_vec(),
        &source(InputFileType::Fb2Zip, "/in/bad.fb2.zip"),
        &dest(InputFileType::Fb2, "x"),
        &tags,
    );
    assert!(matches!(r, Err(fb2_clean::CleanError::Archive(_))));
}

#[test]
fn unzip_extracts_plain_document() {
    let src = zip_with(&[("book.fb2", b"<a><b/>kept</a>")]);
    let tags = Tags::new(b"b");
    let out = process_document(
        src,
        &source(InputFileType::Fb2Zip, "/in/book.fb2.zip"),
        &dest(InputFileType::Fb2, "book"),
        &tags,
    )
    .unwrap();
    assert_eq!(out, b"<a>kept</a>".to_vec());
}

#[test]
fn zip_compresses_plain_document() {
    let tags = Tags::new(b"");
    let out = process_document(
        b"<a>x</a>".to_vec(),
        &source(InputFileType::Fb2, "/in/story.fb2"),
        &dest(InputFileType::Fb2Zip, "story"),
        &tags,
    )
    .unwrap();
    let mut archive = ZipArchive::new(Cursor::new(out)).unwrap();
    assert_eq!(1, archive.len());
    let mut entry = archive.by_index(0).unwrap();
    assert_eq!("story.fb2", entry.name());
    let mut content = Vec::new();
    entry.read_to_end(&mut content).unwrap();
    assert_eq!(content, b"<a>x</a>".to_vec());
}

#[test]
fn plain_source_extracts_to_itself() {
    let doc =
        fb2_clean::extract_document(b"<a/>".to_vec(), InputFileType::Fb2, b"/in/a.fb2").unwrap();
    assert_eq!(doc, b"<a/>".to_vec());
}

#[test]
fn plain_destination_packs_to_itself() {
    let out =
        fb2_clean::pack_document(b"<a/>".to_vec(), InputFileType::Fb2, b"a.fb2".to_vec()).unwrap();
    assert_eq!(out, b"<a/>".to_vec());
}
