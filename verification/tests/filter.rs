use fb2_clean::{clean_xml, Tags};

fn tags_of(s: &str) -> Tags {
    Tags::new(s.as_bytes())
}

fn clean(input: &str, tags: &Tags) -> Vec<u8> {
    clean_xml(input.as_bytes().to_vec(), tags).expect("well-formed input")
}

#[test]
fn nesting() {
    let tags = tags_of("b");
    let out = clean("<a><b><c/></b></a>", &tags);
    assert_eq!(out, b"<a></a>".to_vec());
}

#[test]
fn sibling_independence() {
    let tags = tags_of("b");
    let out = clean("<a><b/><c/></a>", &tags);
    assert_eq!(out, b"<a><c/></a>".to_vec());
}

#[test]
fn noop_empty_tag_set() {
    let tags = tags_of("");
    let input = "<?xml version=\"1.0\"?><a attr=\"v\">text<!--note--><b/></a>";
    let out = clean(input, &tags);
    assert_eq!(out, input.as_bytes().to_vec());
}

#[test]
fn idempotent() {
    let tags = tags_of("b,c");
    let input = "<?xml version=\"1.0\"?><a>one<b>x<c/>y</b>two<c><b/></c><d/>three</a>";
    let once = clean(input, &tags);
    let twice = clean_xml(once.clone(), &tags).expect("filtered output stays well-formed");
    assert_eq!(once, twice);
}

#[test]
fn same_named_nesting_compounds_depth() {
    let tags = tags_of("b");
    let out = clean("<a><b><b><c/></b>kept?</b>yes</a>", &tags);
    assert_eq!(out, b"<a>yes</a>".to_vec());
}

#[test]
fn default_tags_strip_binary() {
    let tags = Tags::default();
    let out = clean(
        "<FictionBook><body>text<coverpage><image/></coverpage></body>\
         <binary id=\"i\">QUFB</binary></FictionBook>",
        &tags,
    );
    assert_eq!(
        out,
        b"<FictionBook><body>text</body></FictionBook>".to_vec()
    );
}

#[test]
fn attributes_pass_unchanged() {
    let tags = tags_of("b");
    let out = clean("<a x=\"1\" y='2'><b z=\"3\"/>t</a>", &tags);
    assert_eq!(out, b"<a x=\"1\" y='2'>t</a>".to_vec());
}

#[test]
fn malformed_input_is_an_error() {
    let tags = tags_of("b");
    let r = clean_xml(b"<a><b></a>".to_vec(), &tags);
    assert!(matches!(r, Err(fb2_clean::CleanError::Xml(_))));
}
