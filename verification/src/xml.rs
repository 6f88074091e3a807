//! The streaming tag filter: a single pass over the document's token
//! stream that drops every configured element together with its whole
//! subtree, counting nested elision with one suppression depth.
//!
//! Tokenization and serialization are quick_xml's; each token carries
//! `body`, the exact bytes the serializer emits for it, so the filtered
//! document is the concatenation of the bodies of the kept tokens.

use vstd::prelude::*;
use crate::errors::CleanError;
use crate::tags::Tags;
use quick_xml::Reader;
use quick_xml::Writer;
use quick_xml::events::Event;
use std::io::Cursor;

verus! {

/// The shape of one token of the document stream.
#[derive(Copy, Clone, Debug, PartialEq, Eq, Structural)]
pub enum TokenKind {
    /// A start tag; opens an element that may hold others.
    Start,
    /// An end tag.
    End,
    /// A self-closing element: nothing can nest below it.
    Empty,
    /// Anything else: text, comments, declarations, processing
    /// instructions, document type declarations, entity references.
    Other,
}

/// One token: its kind, the element name (empty for `Other`), and the
/// bytes the serializer emits for it.
#[derive(Clone, Debug)]
pub struct Token {
    pub kind: TokenKind,
    pub name: Vec<u8>,
    pub body: Vec<u8>,
}

/// The mathematical model of a token.
pub ghost struct TokModel {
    pub kind: TokenKind,
    pub name: Seq<u8>,
    pub body: Seq<u8>,
}

impl View for Token {
    type V = TokModel;

    open spec fn view(&self) -> TokModel {
        TokModel { kind: self.kind, name: self.name@, body: self.body@ }
    }
}

/// Declares std's in-memory cursor, the byte source the tokenizer
/// reads from; opaque to the verifier.
#[verifier::external_type_specification]
#[verifier::external_body]
#[verifier::reject_recursive_types(T)]
pub struct ExCursor<T>(Cursor<T>);

/// Declares quick_xml's streaming tokenizer; opaque to the verifier,
/// modelled only through `reader_rest`.
#[verifier::external_type_specification]
#[verifier::external_body]
#[verifier::reject_recursive_types(R)]
pub struct ExXmlReader<R>(Reader<R>);

/// The token stream quick_xml yields for a byte string, in order, up to
/// (not including) its end-of-document or first tokenizer error.
pub uninterp spec fn stream_of(input: Seq<u8>) -> Seq<TokModel>;

/// The tokens a reader will still yield before reporting
/// end-of-document or a tokenizer error.
pub uninterp spec fn reader_rest(r: Reader<Cursor<Vec<u8>>>) -> Seq<TokModel>;

/// Whether quick_xml tokenizes the whole byte string to its end
/// without an error: on such input the filter owes a result.
pub uninterp spec fn xml_ok(input: Seq<u8>) -> bool;

/// Whether a reader's remaining stream reaches its end without a
/// tokenizer error.
pub uninterp spec fn reader_ok(r: Reader<Cursor<Vec<u8>>>) -> bool;

/// Relies on quick_xml::Reader::from_reader over an in-memory cursor: a
/// fresh reader's remaining tokens are the tokenization of its input.
#[verifier::external_body]
fn reader_for(input: Vec<u8>) -> (r: Reader<Cursor<Vec<u8>>>)
    ensures
        reader_rest(r) == stream_of(input@),
        reader_ok(r) == xml_ok(input@),
{
    Reader::from_reader(Cursor::new(input))
}

/// Relies on quick_xml::Reader::read_event_into for the next event and
/// on quick_xml::Writer::write_event for the bytes it serializes to
/// (writing into a `Vec` cannot fail).  Start and self-closing tags
/// carry the name the tokenizer reports, other kinds an empty name;
/// every event kind outside the three tag forms is carried whole as
/// `Other`.  A tokenizer error is returned as its message.
#[verifier::external_body]
fn next_token(r: &mut Reader<Cursor<Vec<u8>>>) -> (t: Result<Option<Token>, String>)
    ensures
        t matches Ok(Some(tok)) ==> reader_rest(*old(r)).len() > 0 && tok@ == reader_rest(
            *old(r),
        )[0] && reader_rest(*final(r)) == reader_rest(*old(r)).drop_first(),
        t matches Ok(None) ==> reader_rest(*old(r)).len() == 0 && reader_rest(*final(r)).len()
            == 0,
        t is Ok ==> reader_ok(*final(r)) == reader_ok(*old(r)),
        t matches Ok(None) ==> reader_ok(*old(r)),
        t is Err ==> !reader_ok(*old(r)),
{
    let mut buf = Vec::new();
    let ev = r.read_event_into(&mut buf).map_err(|e| e.to_string())?;
    if let Event::Eof = ev {
        return Ok(None);
    }
    let (kind, name) = match &ev {
        Event::Start(e) => (TokenKind::Start, e.name().0),
        Event::Empty(e) => (TokenKind::Empty, e.name().0),
        Event::End(_) => (TokenKind::End, ""),
        _ => (TokenKind::Other, ""),
    };
    let name = name.as_bytes().to_vec();
    let mut w = Writer::new(Vec::new());
    w.write_event(ev).unwrap();
    Ok(Some(Token { kind, name, body: w.into_inner() }))
}

/// The filter itself, token by token, carrying the suppression depth:
/// a start tag is dropped when already suppressed or when its name is
/// configured (and deepens the suppression); an end tag is dropped
/// while suppressed (and lifts it one level); a self-closing element is
/// dropped when suppressed or named; anything else is dropped exactly
/// while suppressed.
pub open spec fn clean_from(toks: Seq<TokModel>, tags: Set<Seq<u8>>, depth: nat) -> Seq<TokModel>
    decreases toks.len(),
{
    if toks.len() == 0 {
        Seq::empty()
    } else {
        let t = toks.first();
        let rest = toks.drop_first();
        match t.kind {
            TokenKind::Start => if depth > 0 || tags.contains(t.name) {
                clean_from(rest, tags, depth + 1)
            } else {
                seq![t] + clean_from(rest, tags, depth)
            },
            TokenKind::End => if depth > 0 {
                clean_from(rest, tags, (depth - 1) as nat)
            } else {
                seq![t] + clean_from(rest, tags, depth)
            },
            TokenKind::Empty => if depth == 0 && !tags.contains(t.name) {
                seq![t] + clean_from(rest, tags, depth)
            } else {
                clean_from(rest, tags, depth)
            },
            TokenKind::Other => if depth == 0 {
                seq![t] + clean_from(rest, tags, depth)
            } else {
                clean_from(rest, tags, depth)
            },
        }
    }
}

/// The bytes a token stream serializes to.
pub open spec fn render(toks: Seq<TokModel>) -> Seq<u8>
    decreases toks.len(),
{
    if toks.len() == 0 {
        Seq::empty()
    } else {
        toks.first().body + render(toks.drop_first())
    }
}

/// The filtered document, as bytes, for a token stream and a tag set.
pub open spec fn cleaned(toks: Seq<TokModel>, tags: Set<Seq<u8>>) -> Seq<u8> {
    render(clean_from(toks, tags, 0))
}

proof fn lemma_render_cons(t: TokModel, s: Seq<TokModel>)
    ensures
        render(seq![t] + s) == t.body + render(s),
{
    let c = seq![t] + s;
    assert(c.len() > 0);
    assert(c.first() == t);
    assert(c.drop_first() =~= s);
}

/// Removes the configured tags from a document: tokenizes it, filters
/// the stream at suppression depth zero, and reassembles the kept
/// tokens.  On success the result is exactly the rendering of the
/// filtered token stream of the input; a document that tokenizes
/// cleanly (balanced or not — residual suppression at the end is
/// ignored) is owed its filtered form, and one that does not is an
/// error.
#[verifier::loop_isolation(false)]
pub fn clean_xml(input: Vec<u8>, tags: &Tags) -> (r: Result<Vec<u8>, CleanError>)
    ensures
        r matches Ok(out) ==> out@ == cleaned(stream_of(input@), tags@),
        r matches Err(e) ==> (e is Xml || e is TooDeep),
        xml_ok(input@) && stream_of(input@).len() < usize::MAX ==> r is Ok,
        !xml_ok(input@) ==> r is Err,
{
    let ghost in_toks = stream_of(input@);
    let ghost in_ok = xml_ok(input@);
    let mut reader = reader_for(input);
    let mut out: Vec<u8> = Vec::new();
    let mut depth: usize = 0;
    loop
        invariant
            out@ + render(clean_from(reader_rest(reader), tags@, depth as nat)) == cleaned(
                in_toks,
                tags@,
            ),
            reader_ok(reader) == in_ok,
            depth + reader_rest(reader).len() <= in_toks.len(),
        decreases reader_rest(reader).len(),
    {
        let ghost rest0 = reader_rest(reader);
        let tok = match next_token(&mut reader) {
            Err(e) => {
                proof {
                    assert(!in_ok);
                }
                return Err(CleanError::Xml(e));
            },
            Ok(None) => {
                proof {
                    assert(out@ + render(clean_from(reader_rest(reader), tags@, depth as nat))
                        =~= out@);
                }
                return Ok(out);
            },
            Ok(Some(tok)) => tok,
        };
        proof {
            assert(rest0 =~= seq![tok@] + reader_rest(reader));
        }
        let emit: bool = match tok.kind {
            TokenKind::Start => {
                if depth > 0 || tags.contains(tok.name.as_slice()) {
                    if depth == usize::MAX {
                        proof {
                            assert(in_toks.len() >= usize::MAX);
                        }
                        return Err(CleanError::TooDeep);
                    }
                    depth += 1;
                    false
                } else {
                    true
                }
            },
            TokenKind::End => {
                if depth > 0 {
                    depth -= 1;
                    false
                } else {
                    true
                }
            },
            TokenKind::Empty => depth == 0 && !tags.contains(tok.name.as_slice()),
            TokenKind::Other => depth == 0,
        };
        if emit {
            crate::paths::push_all(&mut out, tok.body.as_slice());
            proof {
                lemma_render_cons(tok@, clean_from(reader_rest(reader), tags@, depth as nat));
                assert(clean_from(rest0, tags@, depth as nat) =~= seq![tok@] + clean_from(
                    reader_rest(reader),
                    tags@,
                    depth as nat,
                ));
                assert(out@ + render(clean_from(reader_rest(reader), tags@, depth as nat)) =~= cleaned(
                    in_toks,
                    tags@,
                ));
            }
        }
    }
}

/// No token of `s` is a start tag or self-closing element whose name is
/// configured: nothing in `s` would trigger elision.
pub open spec fn no_elided(s: Seq<TokModel>, tags: Set<Seq<u8>>) -> bool {
    forall|i: int|
        0 <= i < s.len() && (s[i].kind is Start || s[i].kind is Empty) ==> !tags.contains(
            #[trigger] s[i].name,
        )
}

/// Whatever the depth, the filter's output never holds a configured
/// start tag or self-closing element: those are dropped.
proof fn lemma_clean_output_clean(toks: Seq<TokModel>, tags: Set<Seq<u8>>, depth: nat)
    ensures
        no_elided(clean_from(toks, tags, depth), tags),
    decreases toks.len(),
{
    if toks.len() == 0 {
    } else {
        let t = toks.first();
        let rest = toks.drop_first();
        match t.kind {
            TokenKind::Start => {
                if depth > 0 || tags.contains(t.name) {
                    lemma_clean_output_clean(rest, tags, depth + 1);
                } else {
                    lemma_clean_output_clean(rest, tags, depth);
                    lemma_no_elided_cons(t, clean_from(rest, tags, depth), tags);
                }
            },
            TokenKind::End => {
                if depth > 0 {
                    lemma_clean_output_clean(rest, tags, (depth - 1) as nat);
                } else {
                    lemma_clean_output_clean(rest, tags, depth);
                    lemma_no_elided_cons(t, clean_from(rest, tags, depth), tags);
                }
            },
            TokenKind::Empty => {
                lemma_clean_output_clean(rest, tags, depth);
                if depth == 0 && !tags.contains(t.name) {
                    lemma_no_elided_cons(t, clean_from(rest, tags, depth), tags);
                }
            },
            TokenKind::Other => {
                lemma_clean_output_clean(rest, tags, depth);
                if depth == 0 {
                    lemma_no_elided_cons(t, clean_from(rest, tags, depth), tags);
                }
            },
        }
    }
}

proof fn lemma_no_elided_cons(t: TokModel, s: Seq<TokModel>, tags: Set<Seq<u8>>)
    requires
        no_elided(s, tags),
        (t.kind is Start || t.kind is Empty) ==> !tags.contains(t.name),
    ensures
        no_elided(seq![t] + s, tags),
{
    let c = seq![t] + s;
    assert forall|i: int|
        0 <= i < c.len() && (c[i].kind is Start || c[i].kind is Empty) implies !tags.contains(
        c[i].name,
    ) by {
        if i == 0 {
            assert(c[0] == t);
        } else {
            assert(c[i] == s[i - 1]);
        }
    }
}

/// A stream with nothing to elide passes through the filter unchanged.
proof fn lemma_clean_noop(s: Seq<TokModel>, tags: Set<Seq<u8>>)
    requires
        no_elided(s, tags),
    ensures
        clean_from(s, tags, 0) == s,
    decreases s.len(),
{
    if s.len() == 0 {
        assert(clean_from(s, tags, 0) =~= s);
    } else {
        let t = s.first();
        let rest = s.drop_first();
        assert(s[0] == t);
        assert(forall|i: int| 0 <= i < rest.len() ==> rest[i] == s[i + 1]);
        lemma_clean_noop(rest, tags);
        assert(clean_from(s, tags, 0) =~= seq![t] + rest);
        assert(seq![t] + rest =~= s);
    }
}

/// Law: the filter is idempotent.  Refiltering a filtered stream with
/// the same tag set changes nothing, so refiltering a filtered document
/// reproduces it byte for byte.
pub proof fn lemma_clean_idempotent(toks: Seq<TokModel>, tags: Set<Seq<u8>>)
    ensures
        clean_from(clean_from(toks, tags, 0), tags, 0) == clean_from(toks, tags, 0),
        cleaned(clean_from(toks, tags, 0), tags) == render(clean_from(toks, tags, 0)),
{
    lemma_clean_output_clean(toks, tags, 0);
    lemma_clean_noop(clean_from(toks, tags, 0), tags);
}

/// Law: with an empty tag set the filter is the identity — the output
/// stream is the input stream.
pub proof fn lemma_clean_empty_tags(toks: Seq<TokModel>)
    ensures
        clean_from(toks, Set::empty(), 0) == toks,
        cleaned(toks, Set::empty()) == render(toks),
{
    assert(no_elided(toks, Set::empty()));
    lemma_clean_noop(toks, Set::empty());
}

} // verus!
